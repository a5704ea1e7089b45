use clipforge::ids::{ClipId, MediaId, SongId, TextId};

#[test]
fn ids_are_unique_and_round_trip_through_text() {
    let a = MediaId::new();
    let b = MediaId::new();
    assert_ne!(a, b);
    let parsed = MediaId::parse(&a.to_text()).unwrap();
    assert_eq!(parsed, a);
    assert_eq!(a.to_text().len(), 36);
}

#[test]
fn text_form_is_hyphenated_lowercase_hex() {
    let id = MediaId::from_u128(0x0123_4567_89ab_cdef_0123_4567_89ab_cdef);
    assert_eq!(id.to_text(), "01234567-89ab-cdef-0123-456789abcdef");
    assert_eq!(id.as_u128(), 0x0123_4567_89ab_cdef_0123_4567_89ab_cdef);
    assert_eq!(MediaId::parse("01234567-89ab-cdef-0123-456789abcdef"), Some(id));
    assert_eq!(MediaId::parse("not an id"), None);
    assert_eq!(MediaId::none().as_u128(), 0);
}

#[test]
fn other_ids_round_trip_too() {
    let c = ClipId::new();
    assert_eq!(ClipId::parse(&c.to_text()), Some(c));
    assert_eq!(SongId::new().to_text().len(), 36);
    assert_ne!(TextId::new(), TextId::new());
}

#[test]
fn fresh_ids_are_version_4_uuids() {
    for v in [MediaId::new().0, ClipId::new().0, SongId::new().0, TextId::new().0] {
        assert_eq!((v >> 76) & 0xf, 4);
        assert_eq!((v >> 62) & 3, 2);
    }
}

#[test]
fn text_form_is_grouped_lower_case_hex() {
    let id = MediaId(0x0123_4567_89ab_cdef_0123_4567_89ab_cdef);
    assert_eq!(id.to_text(), "01234567-89ab-cdef-0123-456789abcdef");
    assert_eq!(MediaId::parse("01234567-89ab-cdef-0123-456789abcdef"), Some(id));
}
