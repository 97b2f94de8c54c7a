use edit_script::{diff, Edit};

fn replay<T: Eq + Clone>(a: &[T], edits: &[Edit<T>]) -> Vec<T> {
    let mut cursor = 0;
    let mut out = Vec::new();
    for e in edits {
        match e {
            Edit::Insert(v) => out.push((*v).clone()),
            Edit::Delete => cursor += 1,
            Edit::Substitute(v) => {
                cursor += 1;
                out.push((*v).clone());
            }
            Edit::Keep => {
                out.push(a[cursor].clone());
                cursor += 1;
            }
        }
    }
    assert_eq!(cursor, a.len());
    out
}

fn cost<T: Eq>(edits: &[Edit<T>]) -> usize {
    edits
        .iter()
        .map(|e| match e {
            Edit::Keep => 0,
            Edit::Insert(_) | Edit::Delete => 1,
            Edit::Substitute(_) => 2,
        })
        .sum()
}

fn brute_force(a: &[u8], b: &[u8]) -> usize {
    if a.is_empty() {
        return b.len();
    }
    if b.is_empty() {
        return a.len();
    }
    let ins = 1 + brute_force(a, &b[1..]);
    let del = 1 + brute_force(&a[1..], b);
    let diag = if a[0] == b[0] { 0 } else { 2 } + brute_force(&a[1..], &b[1..]);
    ins.min(del).min(diag)
}

fn all_words(max_len: usize) -> Vec<Vec<u8>> {
    let mut words: Vec<Vec<u8>> = vec![vec![]];
    let mut start = 0;
    for _ in 0..max_len {
        let end = words.len();
        for w in start..end {
            for c in [b'x', b'y', b'z'] {
                let mut next = words[w].clone();
                next.push(c);
                words.push(next);
            }
        }
        start = end;
    }
    words
}

#[test]
fn exhaustive_small_inputs() {
    let words = all_words(4);
    for a in &words {
        for b in &words {
            let edits = diff(a, b);
            assert_eq!(&replay(a, &edits), b);
            assert_eq!(cost(&edits), brute_force(a, b));
            let consumed = edits.iter().filter(|e| !matches!(e, Edit::Insert(_))).count();
            let emitted = edits.iter().filter(|e| !matches!(e, Edit::Delete)).count();
            assert_eq!(consumed, a.len());
            assert_eq!(emitted, b.len());
        }
    }
}

#[test]
fn reconstruction_on_words() {
    let a: Vec<char> = "kitten".chars().collect();
    let b: Vec<char> = "sitting".chars().collect();
    let edits = diff(&a, &b);
    assert_eq!(replay(&a, &edits), b);
    assert_eq!(cost(&edits), 5);
}

#[test]
fn identity_keeps_everything() {
    let a: Vec<char> = "banana".chars().collect();
    let edits = diff(&a, &a);
    assert_eq!(edits, vec![Edit::Keep; 6]);
}

#[test]
fn empty_source_inserts_in_order() {
    let a: Vec<char> = vec![];
    let b: Vec<char> = "xyz".chars().collect();
    let edits = diff(&a, &b);
    assert_eq!(edits, vec![Edit::Insert(&b[0]), Edit::Insert(&b[1]), Edit::Insert(&b[2])]);
}

#[test]
fn empty_target_deletes_all() {
    let a: Vec<char> = "xyz".chars().collect();
    let b: Vec<char> = vec![];
    assert_eq!(diff(&a, &b), vec![Edit::Delete, Edit::Delete, Edit::Delete]);
}

#[test]
fn both_empty() {
    let a: Vec<char> = vec![];
    let b: Vec<char> = vec![];
    assert_eq!(diff(&a, &b), vec![]);
}

#[test]
fn no_shared_elements() {
    let a: Vec<u32> = vec![1, 2];
    let b: Vec<u32> = vec![3, 4];
    let edits = diff(&a, &b);
    assert_eq!(
        edits,
        vec![Edit::Delete, Edit::Delete, Edit::Insert(&b[0]), Edit::Insert(&b[1])]
    );
    assert_eq!(cost(&edits), 4);
}

#[test]
fn clone_keeps_value() {
    let c = 'q';
    let e = Edit::Substitute(&c);
    assert_eq!(e.clone(), Edit::Substitute(&c));
    assert_eq!(Edit::<char>::Keep.clone(), Edit::Keep);
}
