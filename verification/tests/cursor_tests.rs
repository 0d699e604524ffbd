use cursmetic::cursor::Cursor;
use cursmetic::resource::{load_string, text_until_nul, ResourceId};

#[test]
fn standard_cursors_are_the_first_seventeen() {
    let all = Cursor::all();
    assert_eq!(all.len(), 19);
    for (i, c) in all.iter().enumerate() {
        assert_eq!(c.is_standard(), i < 17);
        assert_eq!(c.ordinal() as usize, i);
    }
    assert!(matches!(all[17], Cursor::Other(ref s) if s.is_empty()));
    assert!(matches!(all[18], Cursor::Unknown));
}

#[test]
fn english_and_registry_names() {
    assert_eq!(Cursor::NormalSelect.english_display_name(), Some("Normal Select"));
    assert_eq!(Cursor::DiagonalResize2.english_display_name(), Some("Diagonal Resize 2"));
    assert_eq!(Cursor::Unknown.english_display_name(), None);
    assert_eq!(Cursor::Other("x".to_string()).english_display_name(), None);
    assert_eq!(Cursor::NormalSelect.registry_name(), Some("Arrow"));
    assert_eq!(Cursor::Handwriting.registry_name(), Some("NWPen"));
    assert_eq!(Cursor::PersonSelect.registry_name(), Some("Person"));
    assert_eq!(Cursor::Unknown.registry_name(), None);
}

#[test]
fn display_strings() {
    assert_eq!(Cursor::Move.to_string(), "Move");
    assert_eq!(Cursor::TextSelect.to_string(), "Text Select");
    assert_eq!(Cursor::Other("Pen".to_string()).to_string(), "Other Pen");
    assert_eq!(Cursor::Unknown.to_string(), "Unknown");
}

#[test]
fn resource_ids() {
    assert_eq!(ResourceId::from(&Cursor::NormalSelect), ResourceId(Some(207)));
    assert_eq!(ResourceId::from(&Cursor::HelpSelect), ResourceId(Some(218)));
    assert_eq!(ResourceId::from(&Cursor::LinkSelect), ResourceId(Some(225)));
    assert_eq!(ResourceId::from(&Cursor::PersonSelect), ResourceId(Some(227)));
    assert_eq!(ResourceId::from(&Cursor::Unknown), ResourceId(None));
    assert_eq!(ResourceId::of(&Cursor::Other("a".to_string())), ResourceId(None));
}

#[test]
fn resource_ids_are_distinct_for_standard_cursors() {
    let all = Cursor::all();
    let ids: Vec<u32> = all.iter().filter_map(|c| ResourceId::of(c).0).collect();
    assert_eq!(ids.len(), 17);
    for i in 0..ids.len() {
        for j in i + 1..ids.len() {
            assert_ne!(ids[i], ids[j]);
        }
    }
}

#[test]
fn same_compares_variant_and_name() {
    assert!(Cursor::Busy.same(&Cursor::Busy));
    assert!(!Cursor::Busy.same(&Cursor::Move));
    assert!(Cursor::Other("a".to_string()).same(&Cursor::Other("a".to_string())));
    assert!(!Cursor::Other("a".to_string()).same(&Cursor::Other("b".to_string())));
    assert!(Cursor::Other("a".to_string()).duplicate().same(&Cursor::Other("a".to_string())));
}

#[test]
fn loaded_strings() {
    let buffer: Vec<u16> = "Normal Select\0junk".encode_utf16().collect();
    assert_eq!(load_string(&ResourceId(Some(207)), &buffer, 0), None);
    assert_eq!(load_string(&ResourceId(Some(207)), &buffer, 6), Some("Normal".to_string()));
    assert_eq!(load_string(&ResourceId(None), &buffer, 6), None);
    assert_eq!(text_until_nul(&buffer), "Normal Select");
    let no_nul: Vec<u16> = "abc".encode_utf16().collect();
    assert_eq!(text_until_nul(&no_nul), "abc");
}

#[test]
fn display_names_from_loaded_resources() {
    let buffer: Vec<u16> = "Normale Auswahl".encode_utf16().collect();
    assert_eq!(
        Cursor::NormalSelect.display_name(&buffer, buffer.len()),
        Some("Normale Auswahl".to_string())
    );
    assert_eq!(Cursor::NormalSelect.display_name(&buffer, 7), Some("Normale".to_string()));
    assert_eq!(Cursor::NormalSelect.display_name(&buffer, 0), None);
    assert_eq!(Cursor::Unknown.display_name(&buffer, buffer.len()), None);
    assert_eq!(Cursor::Other("x".to_string()).display_name(&buffer, buffer.len()), None);
    let invalid: Vec<u16> = vec![0x41, 0xD800, 0x42];
    assert_eq!(Cursor::Busy.display_name(&invalid, 3), Some("A\u{FFFD}B".to_string()));
}

#[test]
fn utf16_decoding_matches_std() {
    let units: [u16; 9] = [0x41, 0xD800, 0xDBFF, 0xDC00, 0xDFFF, 0xE9, 0xFFFD, 0xD83D, 0xDE00];
    for a in units {
        for b in units {
            for c in units {
                let buf = [a, b, c];
                assert_eq!(
                    load_string(&ResourceId(Some(1)), &buf, 3),
                    Some(String::from_utf16_lossy(&buf)),
                    "{:?}",
                    buf
                );
            }
        }
    }
}
