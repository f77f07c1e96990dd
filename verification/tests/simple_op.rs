use collab_mode::simple_op::{pos_less_than, SimpleOp};

fn test(op: SimpleOp, base: SimpleOp, expected: SimpleOp) {
    assert_eq!(op.transform(&base, &1, &2), expected);
    assert_eq!(op.transform(&base, &2, &1), expected);
}

#[test]
fn test_simple_transform() {
    println!("Ins Ins, op < base.");
    test(SimpleOp::Ins(1, 'x'), SimpleOp::Ins(2, 'y'), SimpleOp::Ins(1, 'x'));

    println!("Ins Ins, op > base.");
    test(SimpleOp::Ins(2, 'x'), SimpleOp::Ins(1, 'y'), SimpleOp::Ins(3, 'x'));

    println!("Ins Del, op < base.");
    test(SimpleOp::Ins(1, 'x'), SimpleOp::Del(2, Some('y')), SimpleOp::Ins(1, 'x'));

    println!("Ins Del, op > base.");
    test(SimpleOp::Ins(2, 'x'), SimpleOp::Del(1, Some('y')), SimpleOp::Ins(1, 'x'));

    println!("Del Ins, op < base.");
    test(SimpleOp::Del(1, Some('x')), SimpleOp::Ins(2, 'y'), SimpleOp::Del(1, Some('x')));

    println!("Del Ins, op > base.");
    test(SimpleOp::Del(2, Some('x')), SimpleOp::Ins(1, 'y'), SimpleOp::Del(3, Some('x')));

    println!("Del Del, op < base.");
    test(SimpleOp::Del(1, Some('x')), SimpleOp::Del(2, Some('y')), SimpleOp::Del(1, Some('x')));

    println!("Del Del, op = base.");
    test(SimpleOp::Del(1, Some('x')), SimpleOp::Del(1, Some('x')), SimpleOp::Del(1, None));

    println!("Del Del, op > base.");
    test(SimpleOp::Del(2, Some('x')), SimpleOp::Del(1, Some('y')), SimpleOp::Del(1, Some('x')));
}

#[test]
fn equal_positions_go_by_site() {
    let op = SimpleOp::Ins(4, 'x');
    let base = SimpleOp::Ins(4, 'y');
    assert_eq!(op.transform(&base, &1, &2), SimpleOp::Ins(4, 'x'));
    assert_eq!(op.transform(&base, &2, &1), SimpleOp::Ins(5, 'x'));
    assert!(pos_less_than(4, 4, &1, &2));
    assert!(!pos_less_than(4, 4, &2, &1));
    assert!(!pos_less_than(4, 4, &2, &2));
}

#[test]
fn deleting_nothing_moves_nothing() {
    let gone = SimpleOp::Del(0, None);
    assert_eq!(SimpleOp::Ins(7, 'x').transform(&gone, &1, &2), SimpleOp::Ins(7, 'x'));
    assert_eq!(SimpleOp::Del(7, Some('x')).transform(&gone, &1, &2), SimpleOp::Del(7, Some('x')));
    assert_eq!(gone.transform(&SimpleOp::Del(0, Some('q')), &1, &2), SimpleOp::Del(0, None));
}

fn apply(op: SimpleOp, doc: &mut Vec<char>) {
    match op {
        SimpleOp::Ins(p, c) => doc.insert(p as usize, c),
        SimpleOp::Del(p, Some(c)) => assert_eq!(doc.remove(p as usize), c),
        SimpleOp::Del(_, None) => {}
    }
}

#[test]
fn two_sites_converge() {
    let start: Vec<char> = "abcd".chars().collect();
    let mut ops = Vec::new();
    for p in 0..5u64 {
        ops.push(SimpleOp::Ins(p, 'x'));
    }
    for p in 0..4u64 {
        ops.push(SimpleOp::Del(p, Some(start[p as usize])));
    }
    ops.push(SimpleOp::Del(2, None));
    for a in &ops {
        for b in &ops {
            let clash = match (a, b) {
                (SimpleOp::Del(p, Some(_)), SimpleOp::Ins(q, _)) => p == q,
                _ => false,
            };
            if clash {
                continue;
            }
            let mut left = start.clone();
            apply(*a, &mut left);
            apply(b.transform(a, &2, &1), &mut left);
            let mut right = start.clone();
            apply(*b, &mut right);
            apply(a.transform(b, &1, &2), &mut right);
            assert_eq!(left, right, "{:?} and {:?}", a, b);
        }
    }
}
