use cursmetic::cursor::Cursor;
use cursmetic::error::{hresult_from_win32, Error};
use cursmetic::scheme::{
    CursorScheme, CursorSchemeName, Hive, SchemeError, HRESULT_FILE_NOT_FOUND,
    MACHINE_CURSORS_SCHEMES, USER_CURSORS_SCHEMES,
};

fn path_of(s: &CursorScheme, c: Cursor) -> Option<String> {
    s.paths().get(&c).cloned()
}

#[test]
fn parse_user_value() {
    let s = CursorScheme::parse_reg_value("a.cur,b.cur", "Mine".to_string(), false).unwrap();
    assert!(matches!(s, CursorScheme::User { .. }));
    assert_eq!(s.name(), "Mine");
    assert_eq!(path_of(&s, Cursor::NormalSelect), Some("a.cur".to_string()));
    assert_eq!(path_of(&s, Cursor::HelpSelect), Some("b.cur".to_string()));
    assert_eq!(path_of(&s, Cursor::Busy), None);
}

#[test]
fn parse_machine_value() {
    let s = CursorScheme::parse_reg_value("a.cur,,c.ani,@main.cpl,-1", "Sys".to_string(), true)
        .unwrap();
    match &s {
        CursorScheme::Machine { name, source, .. } => {
            assert!(matches!(name, CursorSchemeName::Machine(n) if n == "Sys"));
            assert_eq!(source, "@main.cpl,-1");
        }
        _ => panic!("expected a system scheme"),
    }
    assert_eq!(path_of(&s, Cursor::NormalSelect), Some("a.cur".to_string()));
    assert_eq!(path_of(&s, Cursor::HelpSelect), Some("".to_string()));
    assert_eq!(path_of(&s, Cursor::WorkingInBackground), Some("c.ani".to_string()));
}

#[test]
fn parse_requires_source_when_expected() {
    let r = CursorScheme::parse_reg_value("a.cur", "Sys".to_string(), true);
    assert!(matches!(r, Err(SchemeError::MissingSource)));
}

#[test]
fn parse_ignores_extra_pieces() {
    let value = (0..20).map(|i| format!("f{i}.cur")).collect::<Vec<_>>().join(",");
    let s = CursorScheme::parse_reg_value(&value, "Many".to_string(), false).unwrap();
    let entries = s.into_entries();
    assert_eq!(entries.len(), 17);
}

#[test]
fn stringify_lists_every_standard_cursor() {
    let s = CursorScheme::parse_reg_value("a.cur,b.cur", "Mine".to_string(), false).unwrap();
    assert_eq!(s.stringify_reg_value(), "a.cur,b.cur,,,,,,,,,,,,,,,");
}

#[test]
fn stringify_appends_source() {
    let s = CursorScheme::parse_reg_value("x@src", "Sys".to_string(), true).unwrap();
    assert_eq!(s.stringify_reg_value(), "x,,,,,,,,,,,,,,,,,@src");
}

#[test]
fn roundtrip_user_scheme() {
    let value = "1,2,3,4,5,6,7,8,9,10,11,12,13,14,15,16,17";
    let s = CursorScheme::parse_reg_value(value, "Mine".to_string(), false).unwrap();
    assert_eq!(s.stringify_reg_value(), value);
}

#[test]
fn roundtrip_machine_scheme() {
    let value = "1,2,3,4,5,6,7,8,9,10,11,12,13,14,15,16,17,@%SystemRoot%\\System32\\main.cpl,-1";
    let s = CursorScheme::read(CursorSchemeName::Machine("Sys".to_string()), value).unwrap();
    assert_eq!(s.stringify_reg_value(), value);
    let again =
        CursorScheme::parse_reg_value(&s.stringify_reg_value(), "Sys".to_string(), true).unwrap();
    assert_eq!(again.stringify_reg_value(), value);
}

#[test]
fn set_and_remove_paths() {
    let mut s = CursorScheme::parse_reg_value("", "Mine".to_string(), false).unwrap();
    assert_eq!(path_of(&s, Cursor::NormalSelect), Some("".to_string()));
    assert_eq!(s.set_path(Cursor::Move, "m.cur".to_string()), None);
    assert_eq!(s.set_path(Cursor::Move, "n.cur".to_string()), Some("m.cur".to_string()));
    assert_eq!(path_of(&s, Cursor::Move), Some("n.cur".to_string()));
    assert_eq!(s.remove_path(&Cursor::Move), Some("n.cur".to_string()));
    assert_eq!(path_of(&s, Cursor::Move), None);
}

#[test]
fn registry_entry_needs_a_name() {
    let s = CursorScheme::parse_reg_value("a", "".to_string(), false).unwrap();
    assert!(matches!(s.registry_entry(), Err(SchemeError::EmptyName)));
    let s = CursorScheme::parse_reg_value("a", "N".to_string(), false).unwrap();
    let (name, value) = s.registry_entry().unwrap();
    assert_eq!(name, "N");
    assert_eq!(value, "a,,,,,,,,,,,,,,,,");
}

#[test]
fn registration_from_lookup() {
    let n = CursorSchemeName::User("x".to_string());
    assert_eq!(n.is_registered(&Ok("v".to_string())), Ok(true));
    assert_eq!(n.is_registered(&Err(HRESULT_FILE_NOT_FOUND)), Ok(false));
    assert_eq!(n.is_registered(&Err(5)), Err(SchemeError::Registry(5)));
    let s = CursorScheme::parse_reg_value("a", "x".to_string(), false).unwrap();
    assert_eq!(s.is_registered(&Err(HRESULT_FILE_NOT_FOUND)), Ok(false));
}

#[test]
fn scheme_locations() {
    assert_eq!(
        CursorSchemeName::User("a".to_string()).location(),
        (Hive::CurrentUser, USER_CURSORS_SCHEMES)
    );
    assert_eq!(
        CursorSchemeName::Machine("a".to_string()).location(),
        (Hive::LocalMachine, MACHINE_CURSORS_SCHEMES)
    );
    assert_eq!(CursorSchemeName::Machine("a".to_string()).to_string(), "a");
}

#[test]
fn listed_scheme_names_skip_empty() {
    let names = vec!["".to_string(), "A".to_string(), "B".to_string()];
    let users = CursorScheme::user_cursors(&names);
    assert_eq!(users.len(), 2);
    assert!(matches!(&users[0], CursorSchemeName::User(n) if n == "A"));
    let machines = CursorScheme::machine_cursors(&names);
    assert!(matches!(&machines[1], CursorSchemeName::Machine(n) if n == "B"));
}

#[test]
fn display_names() {
    let s = CursorScheme::parse_reg_value("a", "Mine".to_string(), false).unwrap();
    assert_eq!(s.display_name(&[]), "Mine");
    let m = CursorScheme::parse_reg_value("a@src", "Sys".to_string(), true).unwrap();
    let loaded: Vec<u16> = "Windows Default\0\0".encode_utf16().collect();
    assert_eq!(m.display_name(&loaded), "Windows Default");
}

#[test]
fn win32_errors_as_hresults() {
    assert_eq!(hresult_from_win32(2), HRESULT_FILE_NOT_FOUND);
    assert_eq!(hresult_from_win32(0), 0);
    assert_eq!(hresult_from_win32(0x8000_4005), 0x8000_4005u32 as i32);
    assert_eq!(hresult_from_win32(0x1_0005), 0x8007_0005u32 as i32);
    assert_eq!(Error::from_win32(5), Error::Windows(0x8007_0005u32 as i32));
}
