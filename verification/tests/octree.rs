#[test]
fn simple_test() {}

#[test]
fn second_test() {}
