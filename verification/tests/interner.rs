use lox_rs::object::StringInterner;

#[test]
fn test_intern() {
    let mut interner = StringInterner::new();
    let a = interner.intern("this is a test");
    assert_eq!(interner.get(a), "this is a test");
}

#[test]
fn intern_is_idempotent() {
    let mut interner = StringInterner::new();
    let a = interner.intern("alpha");
    let b = interner.intern("beta");
    let a2 = interner.intern("alpha");
    assert_eq!(a, a2);
    assert_ne!(a, b);
    assert_eq!(interner.get(b), "beta");
}

#[test]
fn intern_distinguishes_byte_distinct_strings() {
    let mut interner = StringInterner::new();
    let a = interner.intern("x");
    let b = interner.intern("x ");
    let c = interner.intern("X");
    assert_ne!(a, b);
    assert_ne!(a, c);
    assert_ne!(b, c);
    assert_eq!(interner.intern("x"), a);
}
