use doom_front::loadacs::LoadAcs;

#[test]
fn splits_on_whitespace() {
    let l = LoadAcs::parse("alpha.o beta.o\tgamma.o\ndelta.o");
    assert_eq!(l.objects, vec!["alpha.o", "beta.o", "gamma.o", "delta.o"]);
}

#[test]
fn empty_pieces_are_kept() {
    // plain splitting, not split_whitespace: consecutive separators and
    // separators at the ends produce empty pieces
    let l = LoadAcs::parse(" a  b ");
    assert_eq!(l.objects, vec!["", "a", "", "b", ""]);

    let l = LoadAcs::parse("");
    assert_eq!(l.objects, vec![""]);
}

#[test]
fn unicode_whitespace_separates() {
    let l = LoadAcs::parse("one\u{00a0}two");
    assert_eq!(l.objects, vec!["one", "two"]);
}
