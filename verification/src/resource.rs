use vstd::prelude::*;
use crate::cursor::{spec_resource_id, Cursor};
use crate::text::string_of;

verus! {

/// The id of a string resource in `main.cpl`; `None` where a cursor has no
/// localized name there.
#[derive(Debug, Clone, Copy, PartialEq, Eq)]
pub struct ResourceId(pub Option<u32>);

impl ResourceId {
    /// The resource id of the localized name of a cursor.
    pub fn of(value: &Cursor) -> (r: ResourceId)
        ensures
            r.0 == spec_resource_id(value.code()),
    {
        ResourceId(
            match value {
                Cursor::NormalSelect => Some(207),
                Cursor::Busy => Some(208),
                Cursor::WorkingInBackground => Some(209),
                Cursor::Unavailable => Some(210),
                Cursor::TextSelect => Some(211),
                Cursor::PrecisionSelect => Some(212),
                Cursor::VerticalResize => Some(213),
                Cursor::HorizontalResize => Some(214),
                Cursor::DiagonalResize1 => Some(215),
                Cursor::DiagonalResize2 => Some(216),
                Cursor::Move => Some(217),
                Cursor::HelpSelect => Some(218),
                Cursor::Handwriting => Some(219),
                Cursor::AlternateSelect => Some(220),
                Cursor::LinkSelect => Some(225),
                Cursor::LocationSelect => Some(226),
                Cursor::PersonSelect => Some(227),
                _ => None,
            },
        )
    }
}

impl<'a> From<&'a Cursor> for ResourceId {
    /// The resource id of the localized name of a cursor.
    fn from(value: &'a Cursor) -> (r: ResourceId) {
        ResourceId::of(value)
    }
}

impl<'a> vstd::std_specs::convert::FromSpecImpl<&'a Cursor> for ResourceId {
    open spec fn obeys_from_spec() -> bool {
        true
    }

    open spec fn from_spec(v: &'a Cursor) -> ResourceId {
        ResourceId(spec_resource_id(v.code()))
    }
}

/// Whether a UTF-16 code unit is a leading (high) surrogate.
pub open spec fn is_high_surrogate(u: u16) -> bool {
    0xD800 <= u <= 0xDBFF
}

/// Whether a UTF-16 code unit is a trailing (low) surrogate.
pub open spec fn is_low_surrogate(u: u16) -> bool {
    0xDC00 <= u <= 0xDFFF
}

/// The code point of a surrogate pair.
pub open spec fn pair_code(hi: u16, lo: u16) -> int {
    0x10000 + (hi - 0xD800) * 0x400 + (lo - 0xDC00)
}

/// The text of UTF-16 code units, with U+FFFD in place of each unpaired
/// surrogate (as std's `String::from_utf16_lossy` decodes them).
pub open spec fn spec_utf16_lossy(units: Seq<u16>) -> Seq<char>
    decreases units.len(),
{
    if units.len() == 0 {
        Seq::empty()
    } else if is_high_surrogate(units[0]) && units.len() >= 2 && is_low_surrogate(units[1]) {
        seq![pair_code(units[0], units[1]) as char] + spec_utf16_lossy(units.skip(2))
    } else if is_high_surrogate(units[0]) || is_low_surrogate(units[0]) {
        seq!['\u{FFFD}'] + spec_utf16_lossy(units.skip(1))
    } else {
        seq![units[0] as char] + spec_utf16_lossy(units.skip(1))
    }
}

/// Whether `v` is a Unicode scalar value (the value of some `char`).
pub open spec fn is_scalar(v: u32) -> bool {
    v <= 0xD7FF || (0xE000 <= v <= 0x10FFFF)
}

/// std's `char::from_u32`: the character with the value `v`, where `v` is a
/// Unicode scalar value.
#[verifier::external_body]
fn char_from_u32(v: u32) -> (r: Option<char>)
    ensures
        is_scalar(v) ==> r == Some(v as char),
        !is_scalar(v) ==> r is None,
{
    char::from_u32(v)
}

/// Decodes UTF-16 code units, each unpaired surrogate becoming U+FFFD.
pub(crate) fn utf16_lossy(units: &[u16]) -> (r: String)
    ensures
        r@ == spec_utf16_lossy(units@),
{
    let mut out: Vec<char> = Vec::new();
    let mut i: usize = 0;
    proof {
        assert(units@.skip(0) =~= units@);
    }
    while i < units.len()
        invariant
            i <= units.len(),
            spec_utf16_lossy(units@) == out@ + spec_utf16_lossy(units@.skip(i as int)),
        decreases units.len() - i,
    {
        let ghost rest = units@.skip(i as int);
        let ghost before = out@;
        let u = units[i];
        assert(rest[0] == u);
        if 0xD800 <= u && u <= 0xDBFF && i + 1 < units.len() && 0xDC00 <= units[i + 1]
            && units[i + 1] <= 0xDFFF {
            let lo = units[i + 1];
            assert(rest[1] == lo);
            let v: u32 = 0x10000 + ((u - 0xD800) as u32) * 0x400 + ((lo - 0xDC00) as u32);
            assert(v == pair_code(u, lo));
            let c = match char_from_u32(v) {
                Some(c) => c,
                None => '\u{FFFD}',
            };
            out.push(c);
            proof {
                assert(rest.skip(2) =~= units@.skip(i + 2));
                assert(out@ + spec_utf16_lossy(units@.skip(i + 2)) =~= before + (seq![c]
                    + spec_utf16_lossy(rest.skip(2))));
            }
            i = i + 2;
        } else {
            let c = if 0xD800 <= u && u <= 0xDFFF {
                '\u{FFFD}'
            } else {
                match char_from_u32(u as u32) {
                    Some(c) => c,
                    None => '\u{FFFD}',
                }
            };
            out.push(c);
            proof {
                assert(rest.skip(1) =~= units@.skip(i + 1));
                assert(out@ + spec_utf16_lossy(units@.skip(i + 1)) =~= before + (seq![c]
                    + spec_utf16_lossy(rest.skip(1))));
            }
            i = i + 1;
        }
    }
    proof {
        assert(units@.skip(i as int) =~= Seq::<u16>::empty());
        assert(out@ + Seq::<char>::empty() =~= out@);
    }
    string_of(out.as_slice())
}

/// The string resource `id` as a load of it gave it: `len` code units of
/// `buffer`; none for a missing id or where the load gave nothing (`len` is
/// zero).
pub fn load_string(id: &ResourceId, buffer: &[u16], len: usize) -> (r: Option<String>)
    requires
        len <= buffer.len(),
    ensures
        id.0 is None || len == 0 ==> r is None,
        id.0 is Some && len > 0 ==> (r matches Some(s) && s@ == spec_utf16_lossy(
            buffer@.take(len as int),
        )),
{
    if id.0.is_none() || len == 0 {
        return None;
    }
    Some(utf16_lossy(&buffer[0..len]))
}

impl Cursor {
    /// The localized name of the cursor, from what loading its name resource
    /// from `main.cpl` gave (`len` code units of `buffer`): `None` for a
    /// cursor without a name resource, or where the load gave nothing.
    pub fn display_name(&self, buffer: &[u16], len: usize) -> (r: Option<String>)
        requires
            len <= buffer.len(),
        ensures
            spec_resource_id(self.code()) is None || len == 0 ==> r is None,
            spec_resource_id(self.code()) is Some && len > 0 ==> (r matches Some(s) && s@
                == spec_utf16_lossy(buffer@.take(len as int))),
    {
        load_string(&ResourceId::of(self), buffer, len)
    }
}

/// Index of the first NUL code unit, or the length where there is none.
pub open spec fn first_nul(units: Seq<u16>) -> nat
    decreases units.len(),
{
    if units.len() == 0 {
        0
    } else if units[0] == 0 {
        0
    } else {
        1 + first_nul(units.drop_first())
    }
}

/// The code units of a NUL-terminated buffer before its first NUL (all of
/// them where it has none).
pub open spec fn until_nul(units: Seq<u16>) -> Seq<u16> {
    units.take(first_nul(units) as int)
}

proof fn lemma_first_nul(u: Seq<u16>, i: int)
    requires
        0 <= i <= u.len(),
        forall|j: int| 0 <= j < i ==> u[j] != 0,
        i == u.len() || u[i] == 0,
    ensures
        first_nul(u) == i,
    decreases i,
{
    if i > 0 {
        let t = u.drop_first();
        assert forall|j: int| 0 <= j < i - 1 implies t[j] != 0 by {
            assert(u[j + 1] != 0);
        }
        lemma_first_nul(t, i - 1);
        assert(u[0] != 0);
    }
}

/// The text of a NUL-terminated UTF-16 buffer.
pub fn text_until_nul(buffer: &[u16]) -> (r: String)
    ensures
        r@ == spec_utf16_lossy(until_nul(buffer@)),
{
    let mut i: usize = 0;
    while i < buffer.len() && buffer[i] != 0
        invariant
            i <= buffer.len(),
            forall|j: int| 0 <= j < i ==> buffer@[j] != 0,
        decreases buffer.len() - i,
    {
        i = i + 1;
    }
    proof {
        lemma_first_nul(buffer@, i as int);
    }
    utf16_lossy(&buffer[0..i])
}

} // verus!
