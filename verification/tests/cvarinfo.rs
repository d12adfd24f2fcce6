use doom_front::cvarinfo::{CVarInfo, FlagKind, StorageType, Value};
use doom_front::interner::Interner;
use doom_front::Expected;

#[test]
fn smoke() {
    const SOURCE: &str = r#"

server int delusive_bunker = 42;

USER
latch BOOL MEAT_GRINDER = false;

nOsAvE 	cheat color blueroom =
"F5 3a 95";

// a valid single-line comment

nosave server
noarchive 	float
fullConfession = 0.369;

/* ***
a valid block comment //
*/

/**/
/***/

server user nosave cheat noarchive latch server bool ch3mic4l_br3w;

user
	nosave
string
KatanaZERO
=
"LudoWic";
"#;

    let mut interner = Interner::new();
    let cvarinfo = CVarInfo::parse(SOURCE, &mut interner).unwrap();

    assert_eq!(
        cvarinfo.0.len(),
        6,
        "Expected 6 CVar definitions, read {}.",
        cvarinfo.0.len()
    );

    if let Some(init) = &cvarinfo.0[2].init {
        assert_eq!(
            init.value,
            Value::Color {
                red: 245,
                green: 58,
                blue: 149,
            },
            "Test case [2]'s initializer is an incorrect color or a non-color."
        );
    } else {
        panic!("Test case [2]'s initializer failed to get parsed.");
    }
}

#[test]
fn smoke_details() {
    const SOURCE: &str = r#"
server int delusive_bunker = 42;
USER latch BOOL MEAT_GRINDER = false;
nosave cheat color blueroom = "F5 3a 95";
nosave server noarchive float fullConfession = 0.369;
server user nosave cheat noarchive latch server bool ch3mic4l_br3w;
user nosave string KatanaZERO = "LudoWic";
"#;
    let mut interner = Interner::new();
    let cvarinfo = CVarInfo::parse(SOURCE, &mut interner).unwrap();
    assert_eq!(cvarinfo.0.len(), 6);

    let names: Vec<&str> = vec![
        "delusive_bunker",
        "MEAT_GRINDER",
        "blueroom",
        "fullConfession",
        "ch3mic4l_br3w",
        "KatanaZERO",
    ];
    for (cv, want) in cvarinfo.0.iter().zip(names.iter()) {
        let stored = interner.get(cv.name.string.index);
        assert_eq!(stored.as_slice(), want.as_bytes());
    }
    assert_eq!(cvarinfo.0[0].type_spec.storage_type, StorageType::Int);
    assert_eq!(cvarinfo.0[1].type_spec.storage_type, StorageType::Bool);
    assert_eq!(cvarinfo.0[2].type_spec.storage_type, StorageType::Color);
    assert_eq!(cvarinfo.0[3].type_spec.storage_type, StorageType::Float);
    assert_eq!(cvarinfo.0[4].type_spec.storage_type, StorageType::Bool);
    assert_eq!(cvarinfo.0[5].type_spec.storage_type, StorageType::String);

    // a digit-shaped initializer is captured by the float alternative, which
    // precedes the integer alternative and carries the literal text
    assert_eq!(
        cvarinfo.0[0].init.as_ref().unwrap().value,
        Value::Float("42".to_string())
    );
    assert_eq!("42".parse::<f32>().unwrap(), 42.0f32);
    assert_eq!(
        cvarinfo.0[1].init.as_ref().unwrap().value,
        Value::Bool(false)
    );
    assert_eq!(
        cvarinfo.0[3].init.as_ref().unwrap().value,
        Value::Float("0.369".to_string())
    );
    assert_eq!("0.369".parse::<f32>().unwrap(), 0.369f32);
    assert!(cvarinfo.0[4].init.is_none());
    assert_eq!(
        cvarinfo.0[5].init.as_ref().unwrap().value,
        Value::String("LudoWic".to_string())
    );
}

#[test]
fn round_trip_determinism() {
    const SOURCE: &str = "server int a = 1; user float b = 2.5; nosave string c = \"hi\";";
    let mut i1 = Interner::new();
    let mut i2 = Interner::new();
    let a = CVarInfo::parse(SOURCE, &mut i1).unwrap();
    let b = CVarInfo::parse(SOURCE, &mut i2).unwrap();
    assert_eq!(a, b);
    for (x, y) in a.0.iter().zip(b.0.iter()) {
        assert_eq!(
            i1.get(x.name.string.index).as_slice(),
            i2.get(y.name.string.index).as_slice()
        );
    }
}

#[test]
fn case_insensitive_keywords() {
    let spellings = [
        ("server int x = true;", FlagKind::Server),
        ("SERVER int x = TRUE;", FlagKind::Server),
        ("SeRvEr INT x = TrUe;", FlagKind::Server),
    ];
    let mut results = Vec::new();
    for (text, kind) in spellings.iter() {
        let mut it = Interner::new();
        let c = CVarInfo::parse(text, &mut it).unwrap();
        assert_eq!(c.0[0].flags[0].kind, *kind);
        assert_eq!(c.0[0].type_spec.storage_type, StorageType::Int);
        results.push(c.0[0].init.as_ref().unwrap().value.clone());
    }
    assert_eq!(results[0], Value::Bool(true));
    assert_eq!(results[1], Value::Bool(true));
    assert_eq!(results[2], Value::Bool(true));

    let mut it = Interner::new();
    let c = CVarInfo::parse("LATCH NOARCHIVE nosave CHEAT uSeR FLOAT y;", &mut it).unwrap();
    let kinds: Vec<FlagKind> = c.0[0].flags.iter().map(|f| f.kind).collect();
    assert_eq!(
        kinds,
        vec![
            FlagKind::Latch,
            FlagKind::NoArchive,
            FlagKind::NoSave,
            FlagKind::Cheat,
            FlagKind::User,
        ]
    );
    assert_eq!(c.0[0].type_spec.storage_type, StorageType::Float);
}

#[test]
fn flag_order_and_duplicates_preserved() {
    let mut it = Interner::new();
    let c = CVarInfo::parse(
        "server user nosave cheat noarchive latch server bool X;",
        &mut it,
    )
    .unwrap();
    let flags = &c.0[0].flags;
    assert_eq!(flags.len(), 7);
    assert_eq!(flags[0].kind, FlagKind::Server);
    assert_eq!(flags[6].kind, FlagKind::Server);
    assert_eq!(flags[1].kind, FlagKind::User);
    assert_eq!(flags[2].kind, FlagKind::NoSave);
    assert_eq!(flags[3].kind, FlagKind::Cheat);
    assert_eq!(flags[4].kind, FlagKind::NoArchive);
    assert_eq!(flags[5].kind, FlagKind::Latch);
}

#[test]
fn no_initializer_yields_none() {
    let mut it = Interner::new();
    let c = CVarInfo::parse("bool quiet_one; int counted;", &mut it).unwrap();
    assert_eq!(c.0.len(), 2);
    assert!(c.0[0].init.is_none());
    assert!(c.0[1].init.is_none());
}

#[test]
fn color_whitespace_tolerance() {
    let mut it = Interner::new();
    let c = CVarInfo::parse("color C = \"F5 3a 95\";", &mut it).unwrap();
    assert_eq!(
        c.0[0].init.as_ref().unwrap().value,
        Value::Color { red: 245, green: 58, blue: 149 }
    );

    let mut it = Interner::new();
    let c = CVarInfo::parse("color D = \"f53A95\";", &mut it).unwrap();
    assert_eq!(
        c.0[0].init.as_ref().unwrap().value,
        Value::Color { red: 245, green: 58, blue: 149 }
    );

    // comments count as whitespace between the hex groups too
    let mut it = Interner::new();
    let c = CVarInfo::parse("color E = \"F5/*mid*/3a 95\";", &mut it).unwrap();
    assert_eq!(
        c.0[0].init.as_ref().unwrap().value,
        Value::Color { red: 245, green: 58, blue: 149 }
    );
}

#[test]
fn failure_is_atomic() {
    let mut it = Interner::new();
    let r = CVarInfo::parse("int good = 1; float bad = @;", &mut it);
    assert!(r.is_err());

    let mut it = Interner::new();
    let r = CVarInfo::parse("int good = 1; trailing garbage", &mut it);
    assert!(r.is_err());
}

#[test]
fn error_positions_and_expectations() {
    let mut it = Interner::new();
    let e = CVarInfo::parse("@", &mut it).unwrap_err();
    assert_eq!(e.expected, Expected::TypeSpecifier);
    assert_eq!(e.offset, 0);

    let mut it = Interner::new();
    let e = CVarInfo::parse("int ;", &mut it).unwrap_err();
    assert_eq!(e.expected, Expected::Identifier);
    assert_eq!(e.offset, 4);

    let mut it = Interner::new();
    let e = CVarInfo::parse("int x", &mut it).unwrap_err();
    assert_eq!(e.expected, Expected::Semicolon);
    assert_eq!(e.offset, 5);

    assert_eq!(Expected::Identifier.describe(), "an identifier");
}

#[test]
fn grammar_quirks() {
    // no negative literals: the `=` initializer falls back to nothing and the
    // `-` then fails the declaration
    let mut it = Interner::new();
    assert!(CVarInfo::parse("int x = -5;", &mut it).is_err());

    // an empty string literal is not accepted: the body needs at least one byte
    let mut it = Interner::new();
    assert!(CVarInfo::parse("string s = \"\";", &mut it).is_err());

    // no escape mechanism: a backslash never fits inside a string literal
    let mut it = Interner::new();
    assert!(CVarInfo::parse("string s = \"a\\\\b\";", &mut it).is_err());

    // a triple slash is not a comment opener: `//` followed by `/` only
    // matches the bare two-byte comment, leaving the third slash behind
    let mut it = Interner::new();
    assert!(CVarInfo::parse("///x\nint x;", &mut it).is_err());

    // ...while four slashes comment the line out
    let mut it = Interner::new();
    assert!(CVarInfo::parse("////x\nint x;", &mut it).is_ok());

    // an unterminated block comment is not whitespace
    let mut it = Interner::new();
    assert!(CVarInfo::parse("/* open\nint x;", &mut it).is_err());

    // keywords match without a word boundary: `serverx` reads as the flag
    // `server` followed by a stray `x`, not as an identifier
    let mut it = Interner::new();
    assert!(CVarInfo::parse("serverx int y;", &mut it).is_err());

    // flags may abut with no whitespace at all
    let mut it = Interner::new();
    let c = CVarInfo::parse("serveruser int y;", &mut it).unwrap();
    assert_eq!(c.0[0].flags.len(), 2);
    assert_eq!(c.0[0].flags[0].kind, FlagKind::Server);
    assert_eq!(c.0[0].flags[1].kind, FlagKind::User);

    // a 33-bit digit run exceeds every numeric literal's range check only for
    // the integer alternative; the float alternative still takes it
    let mut it = Interner::new();
    let c = CVarInfo::parse("int big = 4294967296;", &mut it).unwrap();
    assert_eq!(
        c.0[0].init.as_ref().unwrap().value,
        Value::Float("4294967296".to_string())
    );

    // a trailing-dot float form
    let mut it = Interner::new();
    let c = CVarInfo::parse("float f = 7.;", &mut it).unwrap();
    assert_eq!(c.0[0].init.as_ref().unwrap().value, Value::Float("7.".to_string()));
    assert_eq!("7.".parse::<f32>().unwrap(), 7.0f32);

    // an empty input is zero declarations
    let mut it = Interner::new();
    let c = CVarInfo::parse(" /**/ // nothing\n", &mut it).unwrap();
    assert_eq!(c.0.len(), 0);
}

#[test]
fn spans_cover_their_rules() {
    let src = "  server int delusive = 42;";
    let mut it = Interner::new();
    let c = CVarInfo::parse(src, &mut it).unwrap();
    let cv = &c.0[0];
    assert_eq!(cv.span.start(), 2);
    assert_eq!(cv.span.end(), src.len());
    assert_eq!(&src[cv.flags[0].span.start()..cv.flags[0].span.end()], "server");
    assert_eq!(
        &src[cv.type_spec.span.start()..cv.type_spec.span.end()],
        "int"
    );
    assert_eq!(&src[cv.name.span.start()..cv.name.span.end()], "delusive");
    let ini = cv.init.as_ref().unwrap();
    assert_eq!(&src[ini.span.start()..ini.span.end()], "= 42");
    assert!(cv.span.validate(src));
}

#[test]
fn line_comment_edge_forms() {
    // a bare `//` right at end of input is a complete comment
    let mut it = Interner::new();
    assert!(CVarInfo::parse("int x; //", &mut it).is_ok());

    // `//` immediately followed by a newline swallows that newline as its
    // first byte and runs to the *next* newline, hiding the line after it
    let mut it = Interner::new();
    let c = CVarInfo::parse("//\nint x;\nint y;", &mut it).unwrap();
    assert_eq!(c.0.len(), 1);
    assert_eq!(it.get(c.0[0].name.string.index).as_slice(), b"y");

    // an ordinary line comment ends before its newline
    let mut it = Interner::new();
    let c = CVarInfo::parse("// note\nint x;", &mut it).unwrap();
    assert_eq!(c.0.len(), 1);
    assert_eq!(it.get(c.0[0].name.string.index).as_slice(), b"x");

    // the degenerate block comments
    let mut it = Interner::new();
    assert!(CVarInfo::parse("/**/ /***/ int x;", &mut it).is_ok());
}
