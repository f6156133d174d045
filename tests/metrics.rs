use ssm::metrics::{write_decimal, write_metric};

#[test]
fn write_metrics() {
    let mut res = String::new();
    write_metric(&mut res, "foo", 123, &[("key1", "value1"), ("key2", "value2")]);
    assert_eq!("foo{key1=\"value1\",key2=\"value2\"} 123\n", res);
}

#[test]
fn write_metric_appends_to_existing_text() {
    let mut res = String::from("x\n");
    write_metric(&mut res, "m", 0, &[("a", "b")]);
    assert_eq!("x\nm{a=\"b\"} 0\n", res);
}

#[test]
fn write_metric_without_labels() {
    let mut res = String::new();
    write_metric(&mut res, "m", 7, &[]);
    assert_eq!("m{} 7\n", res);
}

#[test]
fn decimal_of_large_and_zero() {
    let mut res = String::new();
    write_decimal(&mut res, 0);
    write_decimal(&mut res, 1000);
    write_decimal(&mut res, usize::MAX);
    assert_eq!(format!("01000{}", usize::MAX), res);
}
