use vstd::prelude::*;

verus! {

/// The cursor roles that a Windows cursor scheme assigns files to.
#[derive(Debug, Clone, Hash, PartialEq, Eq, PartialOrd, Ord)]
pub enum Cursor {
    NormalSelect,
    HelpSelect,
    WorkingInBackground,
    Busy,
    PrecisionSelect,
    TextSelect,
    Handwriting,
    Unavailable,
    VerticalResize,
    HorizontalResize,
    DiagonalResize1,
    DiagonalResize2,
    Move,
    AlternateSelect,
    LinkSelect,
    LocationSelect,
    PersonSelect,
    Other(String),
    Unknown,
}

/// Number of cursor roles that a registry scheme lists.
pub const STANDARD_COUNT: usize = 17;

/// Number of variants of [`Cursor`].
pub const VARIANT_COUNT: usize = 19;

/// Code of the `Other` variant.
pub open spec fn other_code() -> nat {
    17
}

impl Cursor {
    /// Position of the variant in declaration order, which is also the order
    /// that the derived `Ord` follows.
    pub open spec fn code(self) -> nat {
        match self {
            Cursor::NormalSelect => 0,
            Cursor::HelpSelect => 1,
            Cursor::WorkingInBackground => 2,
            Cursor::Busy => 3,
            Cursor::PrecisionSelect => 4,
            Cursor::TextSelect => 5,
            Cursor::Handwriting => 6,
            Cursor::Unavailable => 7,
            Cursor::VerticalResize => 8,
            Cursor::HorizontalResize => 9,
            Cursor::DiagonalResize1 => 10,
            Cursor::DiagonalResize2 => 11,
            Cursor::Move => 12,
            Cursor::AlternateSelect => 13,
            Cursor::LinkSelect => 14,
            Cursor::LocationSelect => 15,
            Cursor::PersonSelect => 16,
            Cursor::Other(_) => 17,
            Cursor::Unknown => 18,
        }
    }

    /// A standard cursor is one of the roles that a registry scheme lists.
    pub open spec fn spec_is_standard(self) -> bool {
        self.code() < 17
    }
}

/// The abstract value of a cursor: its variant code, and the name that an
/// `Other` cursor carries (empty for every other variant).
impl View for Cursor {
    type V = (nat, Seq<char>);

    open spec fn view(&self) -> (nat, Seq<char>) {
        (
            self.code(),
            match self {
                Cursor::Other(s) => s@,
                _ => Seq::empty(),
            },
        )
    }
}

/// The view of the cursor with variant code `code` (and an empty name).
pub open spec fn code_view(code: nat) -> (nat, Seq<char>) {
    (code, Seq::empty())
}

/// English name of each standard cursor.
pub open spec fn spec_english_name(code: nat) -> Option<Seq<char>> {
    if code == 0 { Some("Normal Select"@) }
    else if code == 1 { Some("Help Select"@) }
    else if code == 2 { Some("Working In Background"@) }
    else if code == 3 { Some("Busy"@) }
    else if code == 4 { Some("Precision Select"@) }
    else if code == 5 { Some("Text Select"@) }
    else if code == 6 { Some("Handwriting"@) }
    else if code == 7 { Some("Unavailable"@) }
    else if code == 8 { Some("Vertical Resize"@) }
    else if code == 9 { Some("Horizontal Resize"@) }
    else if code == 10 { Some("Diagonal Resize 1"@) }
    else if code == 11 { Some("Diagonal Resize 2"@) }
    else if code == 12 { Some("Move"@) }
    else if code == 13 { Some("Alternate Select"@) }
    else if code == 14 { Some("Link Select"@) }
    else if code == 15 { Some("Location Select"@) }
    else if code == 16 { Some("Person Select"@) }
    else { None }
}

/// Name under which the registry stores the file of each standard cursor.
pub open spec fn spec_registry_name(code: nat) -> Option<Seq<char>> {
    if code == 0 { Some("Arrow"@) }
    else if code == 1 { Some("Help"@) }
    else if code == 2 { Some("AppStarting"@) }
    else if code == 3 { Some("Wait"@) }
    else if code == 4 { Some("Crosshair"@) }
    else if code == 5 { Some("IBeam"@) }
    else if code == 6 { Some("NWPen"@) }
    else if code == 7 { Some("No"@) }
    else if code == 8 { Some("SizeNS"@) }
    else if code == 9 { Some("SizeWE"@) }
    else if code == 10 { Some("SizeNWSE"@) }
    else if code == 11 { Some("SizeNESW"@) }
    else if code == 12 { Some("SizeAll"@) }
    else if code == 13 { Some("UpArrow"@) }
    else if code == 14 { Some("Hand"@) }
    else if code == 15 { Some("Pin"@) }
    else if code == 16 { Some("Person"@) }
    else { None }
}

/// String-resource id in `main.cpl` of the localized name of each standard cursor.
pub open spec fn spec_resource_id(code: nat) -> Option<u32> {
    if code == 0 { Some(207u32) }
    else if code == 1 { Some(218u32) }
    else if code == 2 { Some(209u32) }
    else if code == 3 { Some(208u32) }
    else if code == 4 { Some(212u32) }
    else if code == 5 { Some(211u32) }
    else if code == 6 { Some(219u32) }
    else if code == 7 { Some(210u32) }
    else if code == 8 { Some(213u32) }
    else if code == 9 { Some(214u32) }
    else if code == 10 { Some(215u32) }
    else if code == 11 { Some(216u32) }
    else if code == 12 { Some(217u32) }
    else if code == 13 { Some(220u32) }
    else if code == 14 { Some(225u32) }
    else if code == 15 { Some(226u32) }
    else if code == 16 { Some(227u32) }
    else { None }
}

impl Cursor {
    /// The variant code, computed.
    pub fn ordinal(&self) -> (r: u8)
        ensures
            r as nat == self.code(),
    {
        match self {
            Cursor::NormalSelect => 0,
            Cursor::HelpSelect => 1,
            Cursor::WorkingInBackground => 2,
            Cursor::Busy => 3,
            Cursor::PrecisionSelect => 4,
            Cursor::TextSelect => 5,
            Cursor::Handwriting => 6,
            Cursor::Unavailable => 7,
            Cursor::VerticalResize => 8,
            Cursor::HorizontalResize => 9,
            Cursor::DiagonalResize1 => 10,
            Cursor::DiagonalResize2 => 11,
            Cursor::Move => 12,
            Cursor::AlternateSelect => 13,
            Cursor::LinkSelect => 14,
            Cursor::LocationSelect => 15,
            Cursor::PersonSelect => 16,
            Cursor::Other(_) => 17,
            Cursor::Unknown => 18,
        }
    }

    /// The cursor whose variant code is `code`; an `Other` cursor gets an empty name.
    pub fn from_ordinal(code: u8) -> (r: Cursor)
        requires
            code < 19,
        ensures
            r@ == code_view(code as nat),
    {
        match code {
            0 => Cursor::NormalSelect,
            1 => Cursor::HelpSelect,
            2 => Cursor::WorkingInBackground,
            3 => Cursor::Busy,
            4 => Cursor::PrecisionSelect,
            5 => Cursor::TextSelect,
            6 => Cursor::Handwriting,
            7 => Cursor::Unavailable,
            8 => Cursor::VerticalResize,
            9 => Cursor::HorizontalResize,
            10 => Cursor::DiagonalResize1,
            11 => Cursor::DiagonalResize2,
            12 => Cursor::Move,
            13 => Cursor::AlternateSelect,
            14 => Cursor::LinkSelect,
            15 => Cursor::LocationSelect,
            16 => Cursor::PersonSelect,
            17 => Cursor::Other(String::new()),
            _ => Cursor::Unknown,
        }
    }

    /// A copy of the cursor.
    pub fn duplicate(&self) -> (r: Cursor)
        ensures
            r@ == self@,
    {
        match self {
            Cursor::Other(s) => Cursor::Other(s.clone()),
            _ => Cursor::from_ordinal(self.ordinal()),
        }
    }

    /// Whether two cursors are the same role (and, for `Other`, carry the same name).
    pub fn same(&self, other: &Cursor) -> (r: bool)
        ensures
            r == (self@ == other@),
    {
        match self {
            Cursor::Other(a) => match other {
                Cursor::Other(b) => *a == *b,
                _ => false,
            },
            _ => match other {
                Cursor::Other(_) => false,
                _ => self.ordinal() == other.ordinal(),
            },
        }
    }

    /// Every variant once, in declaration order (an `Other` cursor with an
    /// empty name standing for its variant).
    pub fn all() -> (r: Vec<Cursor>)
        ensures
            r.len() == VARIANT_COUNT,
            forall|i: int| 0 <= i < r.len() ==> #[trigger] r[i]@ == code_view(i as nat),
    {
        let mut r: Vec<Cursor> = Vec::new();
        let mut i: u8 = 0;
        while i < 19
            invariant
                i <= 19,
                r.len() == i,
                forall|j: int| 0 <= j < r.len() ==> #[trigger] r[j]@ == code_view(j as nat),
            decreases 19 - i,
        {
            r.push(Cursor::from_ordinal(i));
            i = i + 1;
        }
        r
    }

    /// Whether the cursor is one of the roles that a registry scheme lists.
    pub fn is_standard(&self) -> (r: bool)
        ensures
            r == self.spec_is_standard(),
    {
        match self {
            Cursor::Other(_) | Cursor::Unknown => false,
            _ => true,
        }
    }

    /// The English name of a standard cursor.
    pub fn english_display_name(&self) -> (r: Option<&'static str>)
        ensures
            r is Some == spec_english_name(self.code()) is Some,
            r matches Some(s) ==> s@ == spec_english_name(self.code())->0,
    {
        match self {
            Cursor::NormalSelect => Some("Normal Select"),
            Cursor::Busy => Some("Busy"),
            Cursor::WorkingInBackground => Some("Working In Background"),
            Cursor::Unavailable => Some("Unavailable"),
            Cursor::TextSelect => Some("Text Select"),
            Cursor::PrecisionSelect => Some("Precision Select"),
            Cursor::VerticalResize => Some("Vertical Resize"),
            Cursor::HorizontalResize => Some("Horizontal Resize"),
            Cursor::DiagonalResize1 => Some("Diagonal Resize 1"),
            Cursor::DiagonalResize2 => Some("Diagonal Resize 2"),
            Cursor::Move => Some("Move"),
            Cursor::HelpSelect => Some("Help Select"),
            Cursor::Handwriting => Some("Handwriting"),
            Cursor::AlternateSelect => Some("Alternate Select"),
            Cursor::LinkSelect => Some("Link Select"),
            Cursor::LocationSelect => Some("Location Select"),
            Cursor::PersonSelect => Some("Person Select"),
            _ => None,
        }
    }

    /// The name under which the registry stores the file of a standard cursor.
    pub fn registry_name(&self) -> (r: Option<&'static str>)
        ensures
            r is Some == spec_registry_name(self.code()) is Some,
            r matches Some(s) ==> s@ == spec_registry_name(self.code())->0,
    {
        match self {
            Cursor::NormalSelect => Some("Arrow"),
            Cursor::Busy => Some("Wait"),
            Cursor::WorkingInBackground => Some("AppStarting"),
            Cursor::Unavailable => Some("No"),
            Cursor::TextSelect => Some("IBeam"),
            Cursor::PrecisionSelect => Some("Crosshair"),
            Cursor::VerticalResize => Some("SizeNS"),
            Cursor::HorizontalResize => Some("SizeWE"),
            Cursor::DiagonalResize1 => Some("SizeNWSE"),
            Cursor::DiagonalResize2 => Some("SizeNESW"),
            Cursor::Move => Some("SizeAll"),
            Cursor::HelpSelect => Some("Help"),
            Cursor::Handwriting => Some("NWPen"),
            Cursor::AlternateSelect => Some("UpArrow"),
            Cursor::LinkSelect => Some("Hand"),
            Cursor::LocationSelect => Some("Pin"),
            Cursor::PersonSelect => Some("Person"),
            _ => None,
        }
    }
}

/// The name under which a cursor is shown in English: its English name for a
/// standard cursor, `Other ` followed by its name for an `Other` cursor, and
/// `Unknown` otherwise.
pub open spec fn spec_display_string(c: Cursor) -> Seq<char> {
    match c {
        Cursor::Other(s) => "Other "@ + s@,
        Cursor::Unknown => "Unknown"@,
        _ => spec_english_name(c.code())->0,
    }
}

impl Cursor {
    /// The name under which the cursor is shown in English.
    pub fn to_string(&self) -> (r: String)
        ensures
            r@ == spec_display_string(*self),
    {
        match self {
            Cursor::Other(s) => {
                let mut r = crate::text::chars_of("Other ");
                let name = crate::text::chars_of(s.as_str());
                r.extend_from_slice(name.as_slice());
                crate::text::string_of(r.as_slice())
            },
            Cursor::Unknown => crate::text::string_of(crate::text::chars_of("Unknown").as_slice()),
            _ => {
                let name = self.english_display_name();
                match name {
                    Some(n) => crate::text::string_of(crate::text::chars_of(n).as_slice()),
                    None => String::new(),
                }
            },
        }
    }
}

/// The standard cursors in the order in which `main.cpl`'s string table
/// holds their names: ids 207 to 220 for the first fourteen, then 225 to 227.
pub open spec fn name_table_order() -> Seq<Cursor> {
    seq![
        Cursor::NormalSelect,
        Cursor::Busy,
        Cursor::WorkingInBackground,
        Cursor::Unavailable,
        Cursor::TextSelect,
        Cursor::PrecisionSelect,
        Cursor::VerticalResize,
        Cursor::HorizontalResize,
        Cursor::DiagonalResize1,
        Cursor::DiagonalResize2,
        Cursor::Move,
        Cursor::HelpSelect,
        Cursor::Handwriting,
        Cursor::AlternateSelect,
        Cursor::LinkSelect,
        Cursor::LocationSelect,
        Cursor::PersonSelect,
    ]
}

/// Each standard cursor's name resource is the `main.cpl` string of its
/// name: the ids run 207, 208, ... along `name_table_order` (225, 226, 227
/// for the last three), and that order lists every standard cursor once.
pub proof fn lemma_resource_ids_follow_name_table(j: int, c: Cursor)
    ensures
        0 <= j < 17 ==> spec_resource_id(name_table_order()[j].code()) == Some(
            (if j < 14 { 207 + j } else { 211 + j }) as u32,
        ),
        c.spec_is_standard() ==> exists|i: int| 0 <= i < 17 && #[trigger] name_table_order()[i] == c,
        0 <= j < 17 ==> name_table_order()[j].spec_is_standard(),
{
    if 0 <= j < 17 {
        if j == 0 {
            assert(name_table_order()[j] == Cursor::NormalSelect);
        } else if j == 1 {
            assert(name_table_order()[j] == Cursor::Busy);
        } else if j == 2 {
            assert(name_table_order()[j] == Cursor::WorkingInBackground);
        } else if j == 3 {
            assert(name_table_order()[j] == Cursor::Unavailable);
        } else if j == 4 {
            assert(name_table_order()[j] == Cursor::TextSelect);
        } else if j == 5 {
            assert(name_table_order()[j] == Cursor::PrecisionSelect);
        } else if j == 6 {
            assert(name_table_order()[j] == Cursor::VerticalResize);
        } else if j == 7 {
            assert(name_table_order()[j] == Cursor::HorizontalResize);
        } else if j == 8 {
            assert(name_table_order()[j] == Cursor::DiagonalResize1);
        } else if j == 9 {
            assert(name_table_order()[j] == Cursor::DiagonalResize2);
        } else if j == 10 {
            assert(name_table_order()[j] == Cursor::Move);
        } else if j == 11 {
            assert(name_table_order()[j] == Cursor::HelpSelect);
        } else if j == 12 {
            assert(name_table_order()[j] == Cursor::Handwriting);
        } else if j == 13 {
            assert(name_table_order()[j] == Cursor::AlternateSelect);
        } else if j == 14 {
            assert(name_table_order()[j] == Cursor::LinkSelect);
        } else if j == 15 {
            assert(name_table_order()[j] == Cursor::LocationSelect);
        } else if j == 16 {
            assert(name_table_order()[j] == Cursor::PersonSelect);
        }
    }
    if c.spec_is_standard() {
        let t = name_table_order();
        assert(t.len() == 17);
        match c {
            Cursor::NormalSelect => {
                assert(t[0] == c);
            },
            Cursor::Busy => {
                assert(t[1] == c);
            },
            Cursor::WorkingInBackground => {
                assert(t[2] == c);
            },
            Cursor::Unavailable => {
                assert(t[3] == c);
            },
            Cursor::TextSelect => {
                assert(t[4] == c);
            },
            Cursor::PrecisionSelect => {
                assert(t[5] == c);
            },
            Cursor::VerticalResize => {
                assert(t[6] == c);
            },
            Cursor::HorizontalResize => {
                assert(t[7] == c);
            },
            Cursor::DiagonalResize1 => {
                assert(t[8] == c);
            },
            Cursor::DiagonalResize2 => {
                assert(t[9] == c);
            },
            Cursor::Move => {
                assert(t[10] == c);
            },
            Cursor::HelpSelect => {
                assert(t[11] == c);
            },
            Cursor::Handwriting => {
                assert(t[12] == c);
            },
            Cursor::AlternateSelect => {
                assert(t[13] == c);
            },
            Cursor::LinkSelect => {
                assert(t[14] == c);
            },
            Cursor::LocationSelect => {
                assert(t[15] == c);
            },
            Cursor::PersonSelect => {
                assert(t[16] == c);
            },
            _ => {},
        }
    }
}

/// The standard cursors are exactly those with an English name, exactly those
/// with a registry name, and exactly those with a name resource.
pub proof fn lemma_standard_names(c: Cursor)
    ensures
        c.spec_is_standard() == spec_english_name(c.code()) is Some,
        c.spec_is_standard() == spec_registry_name(c.code()) is Some,
        c.spec_is_standard() == spec_resource_id(c.code()) is Some,
{
}

/// No two standard cursors share an English name, a registry name or a name
/// resource.
pub proof fn lemma_names_distinct(a: nat, b: nat)
    requires
        a < 17,
        b < 17,
        a != b,
    ensures
        spec_english_name(a) != spec_english_name(b),
        spec_registry_name(a) != spec_registry_name(b),
        spec_resource_id(a) != spec_resource_id(b),
{
    reveal_strlit("Normal Select");
    reveal_strlit("Help Select");
    reveal_strlit("Working In Background");
    reveal_strlit("Busy");
    reveal_strlit("Precision Select");
    reveal_strlit("Text Select");
    reveal_strlit("Handwriting");
    reveal_strlit("Unavailable");
    reveal_strlit("Vertical Resize");
    reveal_strlit("Horizontal Resize");
    reveal_strlit("Diagonal Resize 1");
    reveal_strlit("Diagonal Resize 2");
    reveal_strlit("Move");
    reveal_strlit("Alternate Select");
    reveal_strlit("Link Select");
    reveal_strlit("Location Select");
    reveal_strlit("Person Select");
    reveal_strlit("Arrow");
    reveal_strlit("Help");
    reveal_strlit("AppStarting");
    reveal_strlit("Wait");
    reveal_strlit("Crosshair");
    reveal_strlit("IBeam");
    reveal_strlit("NWPen");
    reveal_strlit("No");
    reveal_strlit("SizeNS");
    reveal_strlit("SizeWE");
    reveal_strlit("SizeNWSE");
    reveal_strlit("SizeNESW");
    reveal_strlit("SizeAll");
    reveal_strlit("UpArrow");
    reveal_strlit("Hand");
    reveal_strlit("Pin");
    reveal_strlit("Person");
    let ea = spec_english_name(a)->0;
    let eb = spec_english_name(b)->0;
    assert(name_key(ea) != name_key(eb));
    let ra = spec_registry_name(a)->0;
    let rb = spec_registry_name(b)->0;
    assert(name_key(ra) != name_key(rb));
}

/// Length, first and last character of a non-empty name.
spec fn name_key(s: Seq<char>) -> (nat, char, char) {
    (s.len(), s[0], s[s.len() - 1])
}

} // verus!
