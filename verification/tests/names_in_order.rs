use crate_rename::order::{rank, Rank};

#[test]
fn earlier_letter_comes_first() {
    assert_eq!(rank("alpha", "zeta"), Rank::Before);
    assert_eq!(rank("zeta", "alpha"), Rank::After);
}

#[test]
fn same_text_ranks_same() {
    assert_eq!(rank("serde", "serde"), Rank::Same);
    assert_eq!(rank("", ""), Rank::Same);
}

#[test]
fn prefix_comes_before_the_longer_text() {
    assert_eq!(rank("foo", "foo-bar"), Rank::Before);
    assert_eq!(rank("foo-bar", "foo"), Rank::After);
    assert_eq!(rank("", "a"), Rank::Before);
}

#[test]
fn order_goes_by_code_point() {
    assert_eq!(rank("Zeta", "alpha"), Rank::Before);
    assert_eq!(rank("a-b", "a_b"), Rank::Before);
    assert_eq!(rank("z", "é"), Rank::Before);
}

#[test]
fn rank_agrees_with_the_order_of_strings() {
    let names = ["", "a", "ab", "b", "a-b", "a_b", "B", "é", "zeta", "alpha", "foo", "foo1"];
    for x in names {
        for y in names {
            let expected = if x < y {
                Rank::Before
            } else if x == y {
                Rank::Same
            } else {
                Rank::After
            };
            assert_eq!(rank(x, y), expected);
        }
    }
}
