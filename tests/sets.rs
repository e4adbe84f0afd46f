use kanren::constraint::mininal_contraints_add;
use kanren::set::{relation, Relation};
use kanren::term::{Term, Var};

#[test]
fn set_equal() {
    assert_eq!(relation(&vec![1], &vec![1]), Relation::Equal);
}

#[test]
fn set_disjoint() {
    assert_eq!(relation(&vec![1], &vec![2]), Relation::Disjoint);
}

#[test]
fn set_joint() {
    assert_eq!(relation(&vec![1, 2], &vec![1, 3]), Relation::Joint);
}

#[test]
fn set_subset() {
    assert_eq!(relation(&vec![1], &vec![1, 2]), Relation::Subset);
}

#[test]
fn set_superset() {
    assert_eq!(relation(&vec![1, 2], &vec![1]), Relation::Superset);
}

#[test]
fn empty_some() {
    assert_eq!(relation(&vec![], &vec![1]), Relation::Subset);
}

#[test]
fn some_empty() {
    assert_eq!(relation(&vec![1], &vec![]), Relation::Superset);
}

#[test]
fn empty_empty() {
    assert_eq!(relation::<u8>(&vec![], &vec![]), Relation::Equal);
}

#[test]
fn test_equal() {
    let mut minimal = Vec::new();
    mininal_contraints_add(&mut minimal, vec![(Var(0), Term::Value(0))]);
    mininal_contraints_add(&mut minimal, vec![(Var(0), Term::Value(0))]);

    let result = vec![vec![(Var(0), Term::Value(0))]];

    assert_eq!(minimal, result);
}

#[test]
fn test_disjoint() {
    let mut minimal = Vec::new();
    mininal_contraints_add(&mut minimal, vec![(Var(0), Term::Value(0))]);
    mininal_contraints_add(&mut minimal, vec![(Var(1), Term::Value(1))]);

    let result = vec![
        vec![(Var(0), Term::Value(0))],
        vec![(Var(1), Term::Value(1))],
    ];

    assert_eq!(minimal, result);
}

#[test]
fn test_joint() {
    let mut minimal = Vec::new();
    mininal_contraints_add(
        &mut minimal,
        vec![(Var(0), Term::Value(0)), (Var(1), Term::Value(1))],
    );
    mininal_contraints_add(
        &mut minimal,
        vec![(Var(0), Term::Value(0)), (Var(2), Term::Value(2))],
    );

    let result = vec![
        vec![(Var(0), Term::Value(0)), (Var(1), Term::Value(1))],
        vec![(Var(0), Term::Value(0)), (Var(2), Term::Value(2))],
    ];

    assert_eq!(minimal, result);
}

#[test]
fn test_subset() {
    let mut minimal = Vec::new();
    mininal_contraints_add(
        &mut minimal,
        vec![(Var(0), Term::Value(0)), (Var(1), Term::Value(1))],
    );
    mininal_contraints_add(&mut minimal, vec![(Var(0), Term::Value(0))]);

    let result = vec![vec![(Var(0), Term::Value(0))]];

    assert_eq!(minimal, result);
}

#[test]
fn test_superset() {
    let mut minimal = Vec::new();
    mininal_contraints_add(&mut minimal, vec![(Var(0), Term::Value(0))]);
    mininal_contraints_add(
        &mut minimal,
        vec![(Var(0), Term::Value(0)), (Var(1), Term::Value(1))],
    );

    let result = vec![vec![(Var(0), Term::Value(0))]];

    assert_eq!(minimal, result);
}
