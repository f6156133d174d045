use vstd::prelude::*;
use vstd::string::*;
use crate::text::{chars_of, push_char, push_str};

verus! {

/// The position of the first `c` in `s`, or `s.len()` when there is none.
pub open spec fn index_of(s: Seq<char>, c: char) -> int
    decreases s.len(),
{
    if s.len() == 0 {
        0
    } else if s[0] == c {
        0
    } else {
        1 + index_of(s.drop_first(), c)
    }
}

/// The host part of an address: what stands before the first colon.
pub open spec fn host_part(a: Seq<char>) -> Seq<char> {
    a.subrange(0, index_of(a, ':'))
}

/// The port part of an address: what stands after the first colon, empty
/// when there is no colon.
pub open spec fn port_part(a: Seq<char>) -> Seq<char> {
    let i = index_of(a, ':');
    if i >= a.len() {
        Seq::<char>::empty()
    } else {
        a.subrange(i + 1, a.len() as int)
    }
}

/// An address with its defaults filled in: an empty host becomes
/// `localhost` and an empty or missing port becomes `22`; an address with
/// both parts is left as it is.
pub open spec fn completed_address(a: Seq<char>) -> Seq<char> {
    let host = host_part(a);
    let port = port_part(a);
    if host.len() > 0 && port.len() > 0 {
        a
    } else {
        (if host.len() == 0 {
            "localhost"@
        } else {
            host
        }) + seq![':'] + (if port.len() == 0 {
            "22"@
        } else {
            port
        })
    }
}

/// `index_of` is the first position that holds `c`.
pub proof fn lemma_index_of(s: Seq<char>, c: char, i: int)
    requires
        0 <= i <= s.len(),
        forall|j: int| 0 <= j < i ==> s[j] != c,
        i < s.len() ==> s[i] == c,
    ensures
        index_of(s, c) == i,
    decreases i,
{
    if i > 0 {
        assert forall|j: int| 0 <= j < i - 1 implies s.drop_first()[j] != c by {
            assert(s.drop_first()[j] == s[j + 1]);
        }
        lemma_index_of(s.drop_first(), c, i - 1);
    }
}

/// Fills in the default host and port of an address.
pub fn complete_address(addr: &str) -> (r: String)
    ensures
        r@ == completed_address(addr@),
{
    let cs = chars_of(addr);
    let n = cs.len();
    let mut i: usize = 0;
    while i < n && cs[i] != ':'
        invariant
            n == cs@.len(),
            cs@ == addr@,
            i <= n,
            forall|j: int| 0 <= j < i ==> cs@[j] != ':',
        decreases n - i,
    {
        i = i + 1;
    }
    proof {
        lemma_index_of(addr@, ':', i as int);
    }
    let host = addr.substring_char(0, i);
    let port = if i < n {
        addr.substring_char(i + 1, n)
    } else {
        addr.substring_char(n, n)
    };
    let mut r = String::new();
    if host.unicode_len() > 0 && port.unicode_len() > 0 {
        push_str(&mut r, addr);
        return r;
    }
    if host.unicode_len() == 0 {
        push_str(&mut r, "localhost");
    } else {
        push_str(&mut r, host);
    }
    push_char(&mut r, ':');
    if port.unicode_len() == 0 {
        push_str(&mut r, "22");
    } else {
        push_str(&mut r, port);
    }
    assert(r@ =~= completed_address(addr@));
    r
}

/// Completing an address twice gives what completing it once gives.
pub proof fn complete_address_idempotent(a: Seq<char>)
    ensures
        completed_address(completed_address(a)) == completed_address(a),
{
    reveal_strlit(":22");
    reveal_strlit("localhost");
    reveal_strlit("22");
    let i = index_of(a, ':');
    let c = completed_address(a);
    let host = host_part(a);
    let port = port_part(a);
    lemma_index_of_bounds(a, ':');
    if !(host.len() > 0 && port.len() > 0) {
        let h = if host.len() == 0 {
            "localhost"@
        } else {
            host
        };
        let p = if port.len() == 0 {
            "22"@
        } else {
            port
        };
        assert forall|j: int| 0 <= j < h.len() implies c[j] != ':' by {
            if host.len() > 0 {
                lemma_before_index(a, ':', j);
            }
        }
        lemma_index_of(c, ':', h.len() as int);
        assert(host_part(c) =~= h);
        assert(port_part(c) =~= p);
    }
}

proof fn lemma_index_of_bounds(s: Seq<char>, c: char)
    ensures
        0 <= index_of(s, c) <= s.len(),
        index_of(s, c) < s.len() ==> s[index_of(s, c)] == c,
    decreases s.len(),
{
    if s.len() > 0 && s[0] != c {
        lemma_index_of_bounds(s.drop_first(), c);
    }
}

proof fn lemma_before_index(s: Seq<char>, c: char, j: int)
    requires
        0 <= j < index_of(s, c),
    ensures
        s[j] != c,
    decreases s.len(),
{
    lemma_index_of_bounds(s, c);
    if j > 0 {
        lemma_before_index(s.drop_first(), c, j - 1);
    }
}

} // verus!
