use doom_front::interner::Interner;
use doom_front::Span;

#[test]
fn intern_is_idempotent() {
    let mut it = Interner::new();
    let a = it.intern(b"delusive_bunker");
    let b = it.intern(b"delusive_bunker");
    assert_eq!(a, b);
    assert_eq!(it.get(a.index).as_slice(), b"delusive_bunker");
    assert_eq!(it.get(b.index).as_slice(), b"delusive_bunker");
}

#[test]
fn intern_deduplicates_and_keeps_order() {
    let mut it = Interner::new();
    let a = it.intern(b"alpha");
    let b = it.intern(b"beta");
    let a2 = it.intern(b"alpha");
    let c = it.intern(b"gamma");
    assert_eq!(a, a2);
    assert_ne!(a, b);
    assert_eq!(a.index.0, 0);
    assert_eq!(b.index.0, 1);
    assert_eq!(c.index.0, 2);
    assert_eq!(it.get(b.index).as_slice(), b"beta");
}

#[test]
fn lookup_add_clear() {
    let mut it = Interner::new();
    assert!(it.try_lookup(b"x").is_none());
    let i = it.add(b"x");
    assert_eq!(it.try_lookup(b"x"), Some(i));
    assert_eq!(it._lookup(b"x"), i);
    let j = it._lookup(b"y");
    assert_ne!(i, j);
    it._clear();
    assert!(it.try_lookup(b"x").is_none());
}

#[test]
fn default_interner_is_empty() {
    let it = Interner::default();
    assert!(it.try_lookup(b"anything").is_none());
}

#[test]
fn span_accessors_and_combine() {
    let s = Span::new(3, 9);
    assert_eq!(s.start(), 3);
    assert_eq!(s.end(), 9);
    let t = Span::new(5, 7);
    let c = s.combine(t);
    assert_eq!(c.start(), 5);
    assert_eq!(c.end(), 9);
    // componentwise maxima, deliberately not the union
    let d = Span::new(0, 1).combine(Span::new(10, 20));
    assert_eq!(d.start(), 10);
    assert_eq!(d.end(), 20);
}

#[test]
fn span_validate_respects_char_boundaries() {
    let src = "a\u{00e9}b";  // 'a', a two-byte character, 'b'
    assert!(Span::new(0, 1).validate(src));
    assert!(!Span::new(1, 2).validate(src));
    assert!(Span::new(1, 3).validate(src));
    assert!(Span::new(0, 4).validate(src));
    assert!(!Span::new(0, 5).validate(src));
    assert!(!Span::new(3, 1).validate(src));
}
