use vstd::prelude::*;
use crate::text::{char_is_space, chars_of, is_space, string_of};

verus! {

/// The lines of `s`: the pieces between line feeds. A carriage return
/// directly before a line feed belongs to the line ending, not to the line;
/// the last piece, which no line feed ends, is kept as it is.
pub open spec fn raw_lines(s: Seq<char>) -> Seq<Seq<char>>
    decreases s.len(),
{
    if s.len() == 0 {
        seq![Seq::<char>::empty()]
    } else {
        let init = raw_lines(s.drop_last());
        if s.last() == '\n' {
            init.drop_last().push(strip_cr(init.last())).push(Seq::<char>::empty())
        } else {
            init.drop_last().push(init.last().push(s.last()))
        }
    }
}

/// `l` without one carriage return at its end.
pub open spec fn strip_cr(l: Seq<char>) -> Seq<char> {
    if l.len() > 0 && l.last() == '\r' {
        l.drop_last()
    } else {
        l
    }
}

/// The maximal runs of non-whitespace characters of `s`, in order.
pub open spec fn words(s: Seq<char>) -> Seq<Seq<char>>
    decreases s.len(),
{
    if s.len() == 0 {
        Seq::<Seq<char>>::empty()
    } else {
        let init = words(s.drop_last());
        let c = s.last();
        if is_space(c) {
            init
        } else if s.len() >= 2 && !is_space(s[s.len() - 2]) {
            init.drop_last().push(init.last().push(c))
        } else {
            init.push(seq![c])
        }
    }
}

pub open spec fn is_digit(c: char) -> bool {
    '0' <= c && c <= '9'
}

pub open spec fn all_digits(s: Seq<char>) -> bool {
    forall|i: int| 0 <= i < s.len() ==> is_digit(#[trigger] s[i])
}

/// The number that a string of decimal digits writes.
pub open spec fn digits_value(s: Seq<char>) -> nat
    decreases s.len(),
{
    if s.len() == 0 {
        0
    } else {
        digits_value(s.drop_last()) * 10 + (s.last() as nat - '0' as nat) as nat
    }
}

/// The digits of an unsigned decimal number, after an optional `+` sign.
pub open spec fn number_digits(s: Seq<char>) -> Seq<char> {
    if s.len() > 0 && s[0] == '+' {
        s.drop_first()
    } else {
        s
    }
}

/// What a field of an unsigned integer accepts: an optional `+` and at least
/// one decimal digit, for a value that fits in `usize`.
pub open spec fn parse_number(s: Seq<char>) -> Option<nat> {
    let d = number_digits(s);
    if d.len() > 0 && all_digits(d) && digits_value(d) <= usize::MAX {
        Some(digits_value(d))
    } else {
        None
    }
}

/// The error of a report line that does not parse.
#[derive(PartialEq, Eq, Structural, Clone, Copy, Debug)]
pub enum ParseError {
    NoFilesystem,
    NoBlocks,
    NoUsed,
    NoAvailable,
    InvalidBlocks,
    InvalidUsed,
    InvalidAvailable,
    NoMount,
}

/// One report line as values.
pub struct EntryModel {
    pub filesystem: Seq<char>,
    pub mount: Seq<char>,
    pub blocks: nat,
    pub used: nat,
    pub available: nat,
}

/// The words of `ws` joined by single spaces.
pub open spec fn join_words(ws: Seq<Seq<char>>) -> Seq<char>
    decreases ws.len(),
{
    if ws.len() == 0 {
        Seq::<char>::empty()
    } else if ws.len() == 1 {
        ws[0]
    } else {
        join_words(ws.drop_last()) + seq![' '] + ws.last()
    }
}

/// What one line of the report gives: filesystem, three counters, a skipped
/// percentage, and the rest as the mount point.
pub open spec fn parse_line(l: Seq<char>) -> Result<EntryModel, ParseError> {
    let ws = words(l);
    if ws.len() < 1 {
        Err(ParseError::NoFilesystem)
    } else if ws.len() < 2 {
        Err(ParseError::NoBlocks)
    } else if parse_number(ws[1]) is None {
        Err(ParseError::InvalidBlocks)
    } else if ws.len() < 3 {
        Err(ParseError::NoUsed)
    } else if parse_number(ws[2]) is None {
        Err(ParseError::InvalidUsed)
    } else if ws.len() < 4 {
        Err(ParseError::NoAvailable)
    } else if parse_number(ws[3]) is None {
        Err(ParseError::InvalidAvailable)
    } else if ws.len() < 6 {
        Err(ParseError::NoMount)
    } else {
        Ok(
            EntryModel {
                filesystem: ws[0],
                mount: join_words(ws.subrange(5, ws.len() as int)),
                blocks: parse_number(ws[1])->Some_0,
                used: parse_number(ws[2])->Some_0,
                available: parse_number(ws[3])->Some_0,
            },
        )
    }
}


/// The contents of each vector of `v`.
pub open spec fn views(v: Seq<Vec<char>>) -> Seq<Seq<char>> {
    v.map_values(|x: Vec<char>| x@)
}

/// The lines of a report after its header.
pub open spec fn body_lines(s: Seq<char>) -> Seq<Seq<char>> {
    raw_lines(s).drop_first()
}

/// The entries of the lines `ls`, in order; empty lines give none, and the
/// first line that does not parse decides the error.
pub open spec fn parse_lines(ls: Seq<Seq<char>>) -> Result<Seq<EntryModel>, ParseError>
    decreases ls.len(),
{
    if ls.len() == 0 {
        Ok(Seq::<EntryModel>::empty())
    } else {
        match parse_lines(ls.drop_last()) {
            Err(e) => Err(e),
            Ok(es) => {
                let l = ls.last();
                if l.len() == 0 {
                    Ok(es)
                } else {
                    match parse_line(l) {
                        Err(e) => Err(e),
                        Ok(x) => Ok(es.push(x)),
                    }
                }
            },
        }
    }
}

/// What a whole report gives: its first line is a header and is skipped.
pub open spec fn parse_report(s: Seq<char>) -> Result<Seq<EntryModel>, ParseError> {
    parse_lines(body_lines(s))
}

proof fn lemma_raw_lines_nonempty(s: Seq<char>)
    ensures
        raw_lines(s).len() >= 1,
    decreases s.len(),
{
    if s.len() > 0 {
        lemma_raw_lines_nonempty(s.drop_last());
    }
}

proof fn lemma_digits_prefix(s: Seq<char>, k: int)
    requires
        all_digits(s),
        0 <= k <= s.len(),
    ensures
        digits_value(s.subrange(0, k)) <= digits_value(s),
    decreases s.len(),
{
    if k < s.len() {
        let t = s.drop_last();
        assert(all_digits(t)) by {
            assert forall|i: int| 0 <= i < t.len() implies is_digit(#[trigger] t[i]) by {
                assert(t[i] == s[i]);
            }
        }
        lemma_digits_prefix(t, k);
        assert(t.subrange(0, k) =~= s.subrange(0, k));
        assert(is_digit(s[s.len() - 1]));
    } else {
        assert(s.subrange(0, k) =~= s);
    }
}

/// Splits `cs` at its line feeds.
pub fn split_lines(cs: &Vec<char>) -> (r: Vec<Vec<char>>)
    ensures
        views(r@) == raw_lines(cs@),
{
    let mut lines: Vec<Vec<char>> = Vec::new();
    let mut cur: Vec<char> = Vec::new();
    let mut i: usize = 0;
    assert(cs@.subrange(0, 0) =~= Seq::<char>::empty());
    assert(views(lines@).push(cur@) =~= raw_lines(cs@.subrange(0, 0)));
    while i < cs.len()
        invariant
            i <= cs@.len(),
            views(lines@).push(cur@) == raw_lines(cs@.subrange(0, i as int)),
        decreases cs.len() - i,
    {
        let c = cs[i];
        let ghost pre = cs@.subrange(0, i as int);
        let ghost next = cs@.subrange(0, i + 1);
        assert(next.drop_last() =~= pre);
        assert(next.last() == c);
        if c == '\n' {
            proof {
                lemma_raw_lines_nonempty(pre);
            }
            let mut done = cur;
            if done.len() > 0 && done[done.len() - 1] == '\r' {
                done.pop();
            }
            lines.push(done);
            cur = Vec::new();
            assert(views(lines@).push(cur@) =~= raw_lines(next));
        } else {
            proof {
                lemma_raw_lines_nonempty(pre);
            }
            cur.push(c);
            assert(views(lines@).push(cur@) =~= raw_lines(next));
        }
        i = i + 1;
    }
    assert(cs@.subrange(0, cs@.len() as int) =~= cs@);
    lines.push(cur);
    assert(views(lines@) =~= raw_lines(cs@));
    lines
}

/// Splits `cs` into its words.
pub fn split_words(cs: &Vec<char>) -> (r: Vec<Vec<char>>)
    ensures
        views(r@) == words(cs@),
{
    let mut ws: Vec<Vec<char>> = Vec::new();
    let mut cur: Vec<char> = Vec::new();
    let mut i: usize = 0;
    assert(cs@.subrange(0, 0) =~= Seq::<char>::empty());
    while i < cs.len()
        invariant
            i <= cs@.len(),
            cur@.len() > 0 <==> (i > 0 && !is_space(cs@[i - 1])),
            (if cur@.len() == 0 {
                views(ws@)
            } else {
                views(ws@).push(cur@)
            }) == words(cs@.subrange(0, i as int)),
        decreases cs.len() - i,
    {
        let c = cs[i];
        let ghost pre = cs@.subrange(0, i as int);
        let ghost next = cs@.subrange(0, i + 1);
        assert(next.drop_last() =~= pre);
        assert(next.last() == c);
        if char_is_space(c) {
            if cur.len() > 0 {
                let done = cur;
                ws.push(done);
                cur = Vec::new();
                assert(views(ws@) =~= words(next));
            }
        } else {
            let ghost init = words(pre);
            let ghost old_cur = cur@;
            if cur.len() > 0 {
                assert(next[next.len() - 2] == cs@[i - 1]);
                assert(init == views(ws@).push(old_cur));
                assert(words(next) == init.drop_last().push(init.last().push(c)));
                cur.push(c);
                assert(views(ws@).push(cur@) =~= init.drop_last().push(init.last().push(c)));
            } else {
                if i > 0 {
                    assert(next[next.len() - 2] == cs@[i - 1]);
                }
                assert(init == views(ws@));
                assert(words(next) == init.push(seq![c]));
                cur.push(c);
                assert(cur@ =~= seq![c]);
            }
        }
        i = i + 1;
    }
    assert(cs@.subrange(0, cs@.len() as int) =~= cs@);
    if cur.len() > 0 {
        ws.push(cur);
    }
    assert(views(ws@) =~= words(cs@));
    ws
}

/// Reads an unsigned decimal field.
pub fn parse_usize(cs: &Vec<char>) -> (r: Option<usize>)
    ensures
        match r {
            Some(v) => parse_number(cs@) == Some(v as nat),
            None => parse_number(cs@) is None,
        },
{
    let n = cs.len();
    let start: usize = if n > 0 && cs[0] == '+' { 1 } else { 0 };
    let ghost d = number_digits(cs@);
    assert(d =~= cs@.subrange(start as int, n as int));
    if start == n {
        return None;
    }
    let mut v: usize = 0;
    let mut j: usize = start;
    assert(cs@.subrange(start as int, start as int) =~= Seq::<char>::empty());
    while j < n
        invariant
            n == cs@.len(),
            start <= j <= n,
            d == cs@.subrange(start as int, n as int),
            d == number_digits(cs@),
            v as nat == digits_value(cs@.subrange(start as int, j as int)),
            forall|t: int| start <= t < j ==> is_digit(#[trigger] cs@[t]),
        decreases n - j,
    {
        let c = cs[j];
        let ghost pre = cs@.subrange(start as int, j as int);
        let ghost next = cs@.subrange(start as int, j + 1);
        assert(next.drop_last() =~= pre);
        if !('0' <= c && c <= '9') {
            assert(d[j - start] == c);
            return None;
        }
        let k = (c as u32 - '0' as u32) as usize;
        assert(k as nat == (c as nat - '0' as nat) as nat);
        assert(digits_value(next) == v * 10 + k);
        if v > (usize::MAX - k) / 10 {
            proof {
                assert(v * 10 + k > usize::MAX) by (nonlinear_arith)
                    requires
                        v > (usize::MAX - k) / 10,
                        k <= 9,
                ;
                if all_digits(d) {
                    lemma_digits_prefix(d, j + 1 - start);
                    assert(d.subrange(0, j + 1 - start) =~= next);
                }
            }
            return None;
        }
        v = v * 10 + k;
        j = j + 1;
    }
    assert(cs@.subrange(start as int, n as int) =~= d);
    assert(all_digits(d)) by {
        assert forall|t: int| 0 <= t < d.len() implies is_digit(#[trigger] d[t]) by {
            assert(d[t] == cs@[t + start]);
        }
    }
    Some(v)
}


/// One filesystem of a disk-usage report.
pub struct DiskUsageEntry {
    pub filesystem: String,
    pub mount: String,
    pub blocks: usize,
    pub used: usize,
    pub available: usize,
}

impl View for DiskUsageEntry {
    type V = EntryModel;

    open spec fn view(&self) -> EntryModel {
        EntryModel {
            filesystem: self.filesystem@,
            mount: self.mount@,
            blocks: self.blocks as nat,
            used: self.used as nat,
            available: self.available as nat,
        }
    }
}

/// A disk-usage report: its entries in the order of its lines.
pub struct DiskUsage {
    pub entries: Vec<DiskUsageEntry>,
}

impl View for DiskUsage {
    type V = Seq<EntryModel>;

    open spec fn view(&self) -> Seq<EntryModel> {
        self.entries@.map_values(|e: DiskUsageEntry| e@)
    }
}

/// Joins `ws[from..]` with single spaces.
fn join_tail(ws: &Vec<Vec<char>>, from: usize) -> (r: Vec<char>)
    requires
        from <= ws@.len(),
    ensures
        r@ == join_words(views(ws@).subrange(from as int, ws@.len() as int)),
{
    let ghost vs = views(ws@);
    let mut acc: Vec<char> = Vec::new();
    let mut k: usize = from;
    assert(vs.subrange(from as int, from as int) =~= Seq::<Seq<char>>::empty());
    while k < ws.len()
        invariant
            from <= k <= ws@.len(),
            vs == views(ws@),
            acc@ == join_words(vs.subrange(from as int, k as int)),
        decreases ws.len() - k,
    {
        let ghost next = vs.subrange(from as int, k + 1);
        assert(next.drop_last() =~= vs.subrange(from as int, k as int));
        assert(next.last() == ws@[k as int]@);
        let ghost before = acc@;
        if k > from {
            acc.push(' ');
        }
        let w = &ws[k];
        let mut t: usize = 0;
        let ghost base = acc@;
        while t < w.len()
            invariant
                t <= w@.len(),
                acc@ == base + w@.subrange(0, t as int),
            decreases w.len() - t,
        {
            acc.push(w[t]);
            t = t + 1;
            assert(acc@ =~= base + w@.subrange(0, t as int));
        }
        assert(w@.subrange(0, w@.len() as int) =~= w@);
        if k == from {
            assert(next.len() == 1);
            assert(acc@ =~= join_words(next));
        } else {
            assert(acc@ =~= before + seq![' '] + next.last());
        }
        k = k + 1;
    }
    acc
}

/// Parses one report line given as characters.
pub fn parse_entry(l: &Vec<char>) -> (r: Result<DiskUsageEntry, ParseError>)
    ensures
        match r {
            Ok(e) => parse_line(l@) == Ok::<EntryModel, ParseError>(e@),
            Err(x) => parse_line(l@) == Err::<EntryModel, ParseError>(x),
        },
{
    let ws = split_words(l);
    let ghost vs = views(ws@);
    if ws.len() < 1 {
        return Err(ParseError::NoFilesystem);
    }
    if ws.len() < 2 {
        return Err(ParseError::NoBlocks);
    }
    let blocks = match parse_usize(&ws[1]) {
        Some(v) => v,
        None => return Err(ParseError::InvalidBlocks),
    };
    if ws.len() < 3 {
        return Err(ParseError::NoUsed);
    }
    let used = match parse_usize(&ws[2]) {
        Some(v) => v,
        None => return Err(ParseError::InvalidUsed),
    };
    if ws.len() < 4 {
        return Err(ParseError::NoAvailable);
    }
    let available = match parse_usize(&ws[3]) {
        Some(v) => v,
        None => return Err(ParseError::InvalidAvailable),
    };
    if ws.len() < 6 {
        return Err(ParseError::NoMount);
    }
    let mount = join_tail(&ws, 5);
    let e = DiskUsageEntry {
        filesystem: string_of(&ws[0]),
        mount: string_of(&mount),
        blocks,
        used,
        available,
    };
    assert(e@ == parse_line(l@)->Ok_0);
    Ok(e)
}

impl DiskUsageEntry {
    /// Parses one report line.
    pub fn from_str(s: &str) -> (r: Result<DiskUsageEntry, ParseError>)
        ensures
            match r {
                Ok(e) => parse_line(s@) == Ok::<EntryModel, ParseError>(e@),
                Err(x) => parse_line(s@) == Err::<EntryModel, ParseError>(x),
            },
    {
        parse_entry(&chars_of(s))
    }
}

impl DiskUsage {
    /// Parses a whole report: the header line is skipped, empty lines are
    /// skipped, and every other line must parse.
    pub fn from_str(s: &str) -> (r: Result<DiskUsage, ParseError>)
        ensures
            match r {
                Ok(u) => parse_report(s@) == Ok::<Seq<EntryModel>, ParseError>(u@),
                Err(x) => parse_report(s@) == Err::<Seq<EntryModel>, ParseError>(x),
            },
    {
        let cs = chars_of(s);
        let lines = split_lines(&cs);
        let ghost ls = body_lines(s@);
        let mut entries: Vec<DiskUsageEntry> = Vec::new();
        let mut i: usize = 1;
        proof {
            lemma_raw_lines_nonempty(s@);
            assert(ls.subrange(0, 0) =~= Seq::<Seq<char>>::empty());
            assert(entries@.map_values(|e: DiskUsageEntry| e@) =~= Seq::<EntryModel>::empty());
        }
        while i < lines.len()
            invariant
                1 <= i <= lines@.len(),
                views(lines@) == raw_lines(s@),
                ls == body_lines(s@),
                parse_lines(ls.subrange(0, i - 1)) == Ok::<Seq<EntryModel>, ParseError>(
                    entries@.map_values(|e: DiskUsageEntry| e@),
                ),
            decreases lines.len() - i,
        {
            let ghost pre = ls.subrange(0, i - 1);
            let ghost next = ls.subrange(0, i as int);
            assert(next.drop_last() =~= pre);
            assert(next.last() == lines@[i as int]@);
            let line = &lines[i];
            if line.len() > 0 {
                match parse_entry(line) {
                    Ok(e) => {
                        entries.push(e);
                    },
                    Err(x) => {
                        assert(ls.subrange(0, ls.len() as int) =~= ls);
                        proof {
                            lemma_parse_lines_err(ls, i as int, x);
                        }
                        return Err(x);
                    },
                }
            }
            assert(entries@.map_values(|e: DiskUsageEntry| e@) =~= parse_lines(next)->Ok_0);
            i = i + 1;
        }
        assert(ls.subrange(0, ls.len() as int) =~= ls);
        let u = DiskUsage { entries };
        assert(u@ =~= entries@.map_values(|e: DiskUsageEntry| e@));
        Ok(u)
    }
}

/// A line whose blocks field is not a number, or with nothing after the
/// percentage column, does not parse.
pub proof fn bad_blocks_or_missing_mount_fails(l: Seq<char>)
    ensures
        words(l).len() >= 2 && parse_number(words(l)[1]) is None ==> parse_line(l) is Err,
        words(l).len() == 5 ==> parse_line(l) is Err,
{
}

/// A report with a non-empty line that does not parse gives no entries at
/// all: the whole report fails.
pub proof fn report_fails_on_bad_line(s: Seq<char>, i: int)
    requires
        0 <= i < body_lines(s).len(),
        body_lines(s)[i].len() > 0,
        parse_line(body_lines(s)[i]) is Err,
    ensures
        parse_report(s) is Err,
{
    let ls = body_lines(s);
    let next = ls.subrange(0, i + 1);
    assert(next.drop_last() =~= ls.subrange(0, i));
    assert(next.last() == ls[i]);
    let x = parse_lines(next)->Err_0;
    lemma_parse_lines_err(ls, i + 1, x);
}

/// Once a prefix of the lines fails, so do all longer ones, with that error.
proof fn lemma_parse_lines_err(ls: Seq<Seq<char>>, k: int, x: ParseError)
    requires
        0 <= k <= ls.len(),
        parse_lines(ls.subrange(0, k)) == Err::<Seq<EntryModel>, ParseError>(x),
    ensures
        parse_lines(ls) == Err::<Seq<EntryModel>, ParseError>(x),
    decreases ls.len() - k,
{
    if k == ls.len() {
        assert(ls.subrange(0, k) =~= ls);
    } else {
        let next = ls.subrange(0, k + 1);
        assert(next.drop_last() =~= ls.subrange(0, k));
        assert(parse_lines(next) == Err::<Seq<EntryModel>, ParseError>(x));
        lemma_parse_lines_err(ls, k + 1, x);
    }
}

} // verus!
