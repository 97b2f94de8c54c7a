use edit_script::{diff, Edit};

fn assert_diff(a: &str, b: &str, edits: Vec<Edit<char>>) {
    let a_vec: Vec<char> = a.chars().collect();
    let b_vec: Vec<char> = b.chars().collect();
    assert_eq!(edits, diff(&a_vec, &b_vec));
}

#[test]
fn insert_start() {
    let c = 'a';
    assert_diff("b", "ab", vec![Edit::Insert(&c), Edit::Keep]);
}

#[test]
fn insert_mid() {
    let c = 'b';
    assert_diff("ac", "abc", vec![Edit::Keep, Edit::Insert(&c), Edit::Keep]);
}

#[test]
fn insert_end() {
    let c = 'b';
    assert_diff("a", "ab", vec![Edit::Keep, Edit::Insert(&c)]);
}

#[test]
fn delete_start() {
    assert_diff("ab", "b", vec![Edit::Delete, Edit::Keep]);
}

#[test]
fn delete_mid() {
    assert_diff("abc", "ac", vec![Edit::Keep, Edit::Delete, Edit::Keep]);
}

#[test]
fn delete_end() {
    assert_diff("ab", "a", vec![Edit::Keep, Edit::Delete]);
}

#[test]
fn change_start() {
    let c = 'c';
    assert_diff("ab", "cb", vec![Edit::Delete, Edit::Insert(&c), Edit::Keep]);
}

#[test]
fn change_mid() {
    let c = 'd';
    assert_diff("abc", "adc", vec![Edit::Keep, Edit::Delete, Edit::Insert(&c), Edit::Keep]);
}

#[test]
fn change_end() {
    let c = 'c';
    assert_diff("ab", "ac", vec![Edit::Keep, Edit::Delete, Edit::Insert(&c)]);
}

#[test]
fn insert() {
    let c = 'd';
    assert_diff("abc", "bcd", vec![Edit::Delete, Edit::Keep, Edit::Keep, Edit::Insert(&c)]);
}
