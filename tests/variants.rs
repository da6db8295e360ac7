use shader_compiler::variants::Variants;

fn axes(rows: &[&[&str]]) -> Variants {
    let mut v = Variants::new();
    for row in rows {
        v.push(row.iter().map(|s| s.to_string()).collect());
    }
    v
}

fn enumerate(v: &Variants) -> Vec<Vec<usize>> {
    let mut out = Vec::new();
    if let Some(mut c) = v.first() {
        loop {
            out.push(c.clone());
            if !v.advance(&mut c) {
                assert!(c.iter().all(|&i| i == 0));
                break;
            }
        }
    }
    out
}

#[test]
fn two_axes_in_odometer_order() {
    let v = axes(&[&["A", "B"], &["X", "Y", "Z"]]);
    let coords = enumerate(&v);
    let names: Vec<Vec<String>> = coords.iter().map(|c| v.keywords(c)).collect();
    let expected = [["A", "X"], ["A", "Y"], ["A", "Z"], ["B", "X"], ["B", "Y"], ["B", "Z"]];
    assert_eq!(names.len(), 6);
    for (got, want) in names.iter().zip(expected.iter()) {
        assert_eq!(got, &want.iter().map(|s| s.to_string()).collect::<Vec<_>>());
    }
}

#[test]
fn count_is_product_and_last_is_maxima() {
    let v = axes(&[&["a", "b"], &["c", "d", "e"], &["f", "g", "h", "i"]]);
    let coords = enumerate(&v);
    assert_eq!(coords.len(), 24);
    for i in 0..coords.len() {
        for j in i + 1..coords.len() {
            assert_ne!(coords[i], coords[j]);
        }
    }
    assert_eq!(coords.last().unwrap(), &vec![1, 2, 3]);
}

#[test]
fn no_axes_gives_one_empty_coordinate() {
    let v = Variants::new();
    let coords = enumerate(&v);
    assert_eq!(coords, vec![Vec::<usize>::new()]);
    assert!(v.keywords(&coords[0]).is_empty());
}

#[test]
fn empty_axis_gives_nothing() {
    let v = axes(&[&["A"], &[]]);
    assert_eq!(v.first(), None);
}

#[test]
fn advance_carries_left() {
    let v = axes(&[&["A", "B"], &["X", "Y"]]);
    let mut c = vec![0, 1];
    assert!(v.advance(&mut c));
    assert_eq!(c, vec![1, 0]);
}
