use vstd::prelude::*;
use crate::cursor::{code_view, Cursor, STANDARD_COUNT};
use crate::cursor_map::CursorPathMap;
use crate::resource::{spec_utf16_lossy, text_until_nul, until_nul};
use crate::tokens::views;
use crate::text::{
    chars_of, find_char, join_chars, join_with, lemma_find_char, lemma_find_char_bound,
    lemma_join_lacks, lemma_join_push, lemma_join_split, lemma_split_join, lemma_split_join_then,
    position_of, split_chars, split_on, string_of,
};

verus! {

/// HRESULT of the Win32 error `ERROR_FILE_NOT_FOUND` (2), as
/// `HRESULT::from(ERROR_FILE_NOT_FOUND)` gives it.
pub const HRESULT_FILE_NOT_FOUND: i32 = -2147024894i32;

/// Registry key, under `HKEY_CURRENT_USER`, of the user's cursor schemes.
pub const USER_CURSORS_SCHEMES: &'static str = "Control Panel\\Cursors\\Schemes";

/// Registry key, under `HKEY_LOCAL_MACHINE`, of the system's cursor schemes.
pub const MACHINE_CURSORS_SCHEMES: &'static str =
    "SOFTWARE\\Microsoft\\Windows\\CurrentVersion\\Control Panel\\Cursors\\Schemes";

/// Why a scheme could not be read, written or looked up.
#[derive(Debug, Clone, PartialEq, Eq)]
pub enum SchemeError {
    /// A system scheme's value holds no `@` before its display-name source.
    MissingSource,
    /// A scheme without a name cannot be written.
    EmptyName,
    /// The registry answered with this HRESULT.
    Registry(i32),
}

/// The name of a cursor scheme, and whether the user or the system holds it.
#[derive(Debug, Clone)]
pub enum CursorSchemeName {
    User(String),
    Machine(String),
}

/// The two registry hives that hold cursor schemes.
#[derive(Debug, Clone, Copy, PartialEq, Eq)]
pub enum Hive {
    CurrentUser,
    LocalMachine,
}

impl CursorSchemeName {
    /// The abstract value: whether the system holds the scheme, and its name.
    pub open spec fn spec_view(self) -> (bool, Seq<char>) {
        match self {
            CursorSchemeName::User(n) => (false, n@),
            CursorSchemeName::Machine(n) => (true, n@),
        }
    }

    /// The name itself.
    pub fn to_string(&self) -> (r: String)
        ensures
            r@ == self.spec_view().1,
    {
        match self {
            CursorSchemeName::User(name) => name.clone(),
            CursorSchemeName::Machine(name) => name.clone(),
        }
    }

    /// Where the registry keeps the scheme: the hive and the key under it.
    /// The scheme is the value of that key named by the scheme's name.
    pub fn location(&self) -> (r: (Hive, &'static str))
        ensures
            r.0 == (if self.spec_view().0 { Hive::LocalMachine } else { Hive::CurrentUser }),
            r.1@ == (if self.spec_view().0 {
                MACHINE_CURSORS_SCHEMES@
            } else {
                USER_CURSORS_SCHEMES@
            }),
    {
        match self {
            CursorSchemeName::User(_) => (Hive::CurrentUser, USER_CURSORS_SCHEMES),
            CursorSchemeName::Machine(_) => (Hive::LocalMachine, MACHINE_CURSORS_SCHEMES),
        }
    }

    /// Whether the scheme exists, given what the registry answered when asked
    /// for the value at [`CursorSchemeName::location`]: its data, or an HRESULT.
    pub fn is_registered(&self, lookup: &Result<String, i32>) -> (r: Result<bool, SchemeError>)
        ensures
            r == lookup_outcome(*lookup),
    {
        match lookup {
            Ok(_) => Ok(true),
            Err(code) => {
                if *code == HRESULT_FILE_NOT_FOUND {
                    Ok(false)
                } else {
                    Err(SchemeError::Registry(*code))
                }
            },
        }
    }
}

/// What a registry lookup says of whether a value exists: found, not found,
/// or another error.
pub open spec fn lookup_outcome(lookup: Result<String, i32>) -> Result<bool, SchemeError> {
    match lookup {
        Ok(_) => Ok(true),
        Err(code) => if code == HRESULT_FILE_NOT_FOUND {
            Ok(false)
        } else {
            Err(SchemeError::Registry(code))
        },
    }
}

/// The scheme names that the registry lists, each kept unless it is empty.
pub open spec fn listed_names(value_names: Seq<Seq<char>>) -> Seq<Seq<char>> {
    value_names.filter(|n: Seq<char>| n.len() > 0)
}

/// The schemes that the registry lists under the given value names, each of
/// the given kind: every non-empty name, in order.
fn scheme_names(value_names: &Vec<String>, machine: bool) -> (r: Vec<CursorSchemeName>)
    ensures
        r.len() == listed_names(views(value_names@)).len(),
        forall|i: int| 0 <= i < r.len() ==> (#[trigger] r@[i]).spec_view() == (machine, listed_names(
            views(value_names@),
        )[i]),
{
    let ghost all = views(value_names@);
    let ghost keep = |n: Seq<char>| n.len() > 0;
    let mut r: Vec<CursorSchemeName> = Vec::new();
    let mut i: usize = 0;
    proof {
        reveal_with_fuel(Seq::filter, 1);
        assert(all.take(0) =~= Seq::<Seq<char>>::empty());
    }
    while i < value_names.len()
        invariant
            i <= value_names.len(),
            all == views(value_names@),
            keep == (|n: Seq<char>| n.len() > 0),
            r.len() == all.take(i as int).filter(keep).len(),
            forall|j: int| 0 <= j < r.len() ==> (#[trigger] r@[j]).spec_view() == (machine, all.take(
                i as int,
            ).filter(keep)[j]),
        decreases value_names.len() - i,
    {
        let name = &value_names[i];
        proof {
            assert(all.take(i as int + 1) =~= all.take(i as int).push(name@));
            all.take(i as int).lemma_filter_push(name@, keep);
        }
        if !name.as_str().is_empty() {
            let entry = if machine {
                CursorSchemeName::Machine(name.clone())
            } else {
                CursorSchemeName::User(name.clone())
            };
            r.push(entry);
        }
        i = i + 1;
    }
    proof {
        assert(all.take(i as int) =~= all);
    }
    r
}

/// A cursor scheme: its name and the file of each cursor. A system scheme also
/// has the (indirect) source of its display name.
#[derive(Debug)]
pub enum CursorScheme {
    User { name: CursorSchemeName, paths: CursorPathMap },
    Machine { name: CursorSchemeName, source: String, paths: CursorPathMap },
}

/// The abstract value of a scheme.
pub struct SchemeView {
    /// Whether the name is a system name, and the name.
    pub name: (bool, Seq<char>),
    /// The display-name source of a system scheme; `None` for a user scheme.
    pub source: Option<Seq<char>>,
    /// The file of each cursor.
    pub paths: Map<(nat, Seq<char>), Seq<char>>,
}

impl View for CursorScheme {
    type V = SchemeView;

    open spec fn view(&self) -> SchemeView {
        match self {
            CursorScheme::User { name, paths } => SchemeView {
                name: name.spec_view(),
                source: None,
                paths: paths@,
            },
            CursorScheme::Machine { name, source, paths } => SchemeView {
                name: name.spec_view(),
                source: Some(source@),
                paths: paths@,
            },
        }
    }
}

/// The paths that a registry value lists: the `i`-th piece is the file of the
/// standard cursor with code `i`; pieces past the standard cursors are ignored.
pub open spec fn paths_from_pieces(pieces: Seq<Seq<char>>) -> Map<(nat, Seq<char>), Seq<char>> {
    Map::new(
        |k: (nat, Seq<char>)| k.0 < STANDARD_COUNT && k.0 < pieces.len() && k.1 == Seq::<char>::empty(),
        |k: (nat, Seq<char>)| pieces[k.0 as int],
    )
}

/// A registry value read as a scheme: `None` where a display-name source is
/// expected and the value has no `@`; otherwise the source (what follows the
/// first `@`, with the `@` kept in front) and the paths (the comma-separated
/// pieces before the first `@`).
pub open spec fn spec_parse(value: Seq<char>, expect_source: bool) -> Option<
    (Option<Seq<char>>, Map<(nat, Seq<char>), Seq<char>>),
> {
    let at = find_char(value, '@');
    if at < value.len() {
        Some(
            (
                Some(seq!['@'] + value.skip(at as int + 1)),
                paths_from_pieces(split_on(value.take(at as int), ',')),
            ),
        )
    } else if expect_source {
        None
    } else {
        Some((None, paths_from_pieces(split_on(value, ','))))
    }
}

/// The path of the standard cursor with code `i`, or the empty string.
pub open spec fn path_or_empty(paths: Map<(nat, Seq<char>), Seq<char>>, i: nat) -> Seq<char> {
    if paths.contains_key(code_view(i)) {
        paths[code_view(i)]
    } else {
        Seq::empty()
    }
}

/// The pieces of a scheme's registry value: the path of each standard cursor
/// in order (empty where it has none), then the source of a system scheme.
pub open spec fn value_pieces(v: SchemeView) -> Seq<Seq<char>> {
    let paths = Seq::new(STANDARD_COUNT as nat, |i: int| path_or_empty(v.paths, i as nat));
    match v.source {
        Some(s) => paths.push(s),
        None => paths,
    }
}

/// A scheme's registry value: its pieces joined with commas.
pub open spec fn spec_stringify(v: SchemeView) -> Seq<char> {
    join_with(value_pieces(v), ',')
}

/// The files that a scheme's registry value gives back: every standard cursor
/// gets its file, or the empty path where it had none.
pub open spec fn completed_paths(paths: Map<(nat, Seq<char>), Seq<char>>) -> Map<
    (nat, Seq<char>),
    Seq<char>,
> {
    Map::new(
        |k: (nat, Seq<char>)| k.0 < STANDARD_COUNT && k.1 == Seq::<char>::empty(),
        |k: (nat, Seq<char>)| path_or_empty(paths, k.0),
    )
}

/// Whether every file of a standard cursor can stand in a registry value:
/// it holds neither the separator `,` nor `@`.
pub open spec fn storable_paths(paths: Map<(nat, Seq<char>), Seq<char>>) -> bool {
    forall|i: nat|
        i < STANDARD_COUNT && #[trigger] paths.contains_key(code_view(i)) ==> !paths[code_view(
            i,
        )].contains(',') && !paths[code_view(i)].contains('@')
}

/// Reading back the registry value that a scheme writes gives the same kind of
/// scheme with the same display-name source, and each standard cursor's file
/// (the empty path where it had none); cursors that are not standard are not
/// written. This holds where no file holds `,` or `@` and a system scheme's
/// source starts with `@` (as the sources that reading gives do).
pub proof fn lemma_parse_stringify(v: SchemeView)
    requires
        storable_paths(v.paths),
        v.source matches Some(s) ==> s.len() > 0 && s[0] == '@',
    ensures
        spec_parse(spec_stringify(v), v.source is Some) == Some(
            (v.source, completed_paths(v.paths)),
        ),
{
    let p = Seq::new(STANDARD_COUNT as nat, |i: int| path_or_empty(v.paths, i as nat));
    assert forall|i: int| 0 <= i < p.len() implies !(#[trigger] p[i]).contains(',') && !p[
        i
    ].contains('@') by {
        if !v.paths.contains_key(code_view(i as nat)) {
            assert(p[i] =~= Seq::<char>::empty());
        }
    }
    lemma_join_lacks(p, ',', '@');
    let jp = join_with(p, ',');
    match v.source {
        None => {
            assert(value_pieces(v) == p);
            lemma_find_char(jp, '@', jp.len() as int);
            lemma_split_join(p, ',');
            assert(paths_from_pieces(p) =~= completed_paths(v.paths));
        },
        Some(src) => {
            assert(value_pieces(v) == p.push(src));
            lemma_join_push(p, src, ',');
            let value = jp + seq![','] + src;
            assert(value == spec_stringify(v));
            let at = jp.len() + 1;
            assert forall|j: int| 0 <= j < at implies value[j] != '@' by {
                if j < jp.len() {
                    assert(value[j] == jp[j]);
                    if jp[j] == '@' {
                        assert(jp.contains('@'));
                    }
                }
            }
            lemma_find_char(value, '@', at as int);
            let empty = Seq::<char>::empty();
            lemma_join_push(p, empty, ',');
            assert(value.take(at as int) =~= jp + seq![','] + empty);
            let q = p.push(empty);
            assert forall|i: int| 0 <= i < q.len() implies !(#[trigger] q[i]).contains(',') by {
                if i < p.len() {
                    assert(q[i] == p[i]);
                } else {
                    assert(q[i] =~= empty);
                }
            }
            lemma_split_join(q, ',');
            assert(paths_from_pieces(q) =~= completed_paths(v.paths));
            assert(seq!['@'] + value.skip(at as int + 1) =~= src);
        },
    }
}

/// Writing back a user scheme read from a registry value without `@` that
/// lists exactly the standard cursors' files gives that value again.
pub proof fn lemma_stringify_parse_user(value: Seq<char>, name: Seq<char>)
    requires
        !value.contains('@'),
        split_on(value, ',').len() == STANDARD_COUNT,
    ensures
        spec_parse(value, false) matches Some((source, paths)) && source is None
            && spec_stringify(SchemeView { name: (false, name), source, paths }) == value,
{
    let at = find_char(value, '@');
    assert forall|j: int| 0 <= j < value.len() implies value[j] != '@' by {
        if value[j] == '@' {
            assert(value.contains('@'));
        }
    }
    lemma_find_char(value, '@', value.len() as int);
    let pieces = split_on(value, ',');
    let v = SchemeView { name: (false, name), source: None, paths: paths_from_pieces(pieces) };
    assert(value_pieces(v) =~= pieces);
    lemma_join_split(value, ',');
}

/// Writing back a system scheme read from a registry value gives that value
/// again, where the part before the first `@` lists the standard cursors'
/// files each followed by a comma (as written values do).
pub proof fn lemma_stringify_parse_machine(
    body: Seq<char>,
    rest: Seq<char>,
    name: Seq<char>,
    expect_source: bool,
)
    requires
        !body.contains('@'),
        split_on(body, ',').len() == STANDARD_COUNT + 1,
        split_on(body, ',')[STANDARD_COUNT as int] == Seq::<char>::empty(),
    ensures
        spec_parse(body + seq!['@'] + rest, expect_source) matches Some((source, paths))
            && source is Some && spec_stringify(SchemeView { name: (true, name), source, paths })
            == body + seq!['@'] + rest,
{
    let value = body + seq!['@'] + rest;
    assert forall|j: int| 0 <= j < body.len() implies value[j] != '@' by {
        assert(value[j] == body[j]);
        if body[j] == '@' {
            assert(body.contains('@'));
        }
    }
    lemma_find_char(value, '@', body.len() as int);
    assert(value.take(body.len() as int) =~= body);
    let pieces = split_on(body, ',');
    let src = seq!['@'] + value.skip(body.len() as int + 1);
    assert(src =~= seq!['@'] + rest);
    let v = SchemeView { name: (true, name), source: Some(src), paths: paths_from_pieces(pieces) };
    let p17 = pieces.take(STANDARD_COUNT as int);
    assert(value_pieces(v) =~= p17.push(src));
    lemma_join_push(p17, src, ',');
    lemma_join_push(p17, Seq::<char>::empty(), ',');
    assert(p17.push(Seq::<char>::empty()) =~= pieces);
    lemma_join_split(body, ',');
    assert(join_with(p17, ',') + seq![','] + src =~= value);
}

/// Reading a registry value gives the standard cursor with code `i` (the
/// `i`-th cursor in declaration order) the `i`-th comma-separated piece of
/// the part before the first `@`, for every piece up to the seventeenth, and
/// gives no other cursor a file.
pub proof fn lemma_parse_piece(value: Seq<char>, expect_source: bool, k: (nat, Seq<char>))
    requires
        spec_parse(value, expect_source) is Some,
    ensures
        ({
            let pieces = split_on(value.take(find_char(value, '@') as int), ',');
            let paths = (spec_parse(value, expect_source)->0).1;
            &&& k.0 < STANDARD_COUNT && k.0 < pieces.len() && k == code_view(k.0) ==> paths.contains_key(k)
                && paths[k] == pieces[k.0 as int]
            &&& paths.contains_key(k) ==> k.0 < STANDARD_COUNT && k.0 < pieces.len() && k == code_view(k.0)
        }),
{
    let at = find_char(value, '@');
    lemma_find_char_bound(value, '@');
    if at >= value.len() {
        assert(value.take(at as int) =~= value);
    }
}

/// Writing a scheme puts the file of the standard cursor with code `i` (the
/// empty path where it has none) as the `i`-th comma-separated piece of the
/// registry value, for every `i` below seventeen, where no file holds `,`.
pub proof fn lemma_stringify_piece(v: SchemeView, i: nat)
    requires
        i < STANDARD_COUNT,
        forall|j: nat| j < STANDARD_COUNT && #[trigger] v.paths.contains_key(code_view(j))
            ==> !v.paths[code_view(j)].contains(','),
    ensures
        split_on(spec_stringify(v), ',')[i as int] == (if v.paths.contains_key(code_view(i)) {
            v.paths[code_view(i)]
        } else {
            Seq::<char>::empty()
        }),
{
    let p = Seq::new(STANDARD_COUNT as nat, |j: int| path_or_empty(v.paths, j as nat));
    assert forall|j: int| 0 <= j < p.len() implies !(#[trigger] p[j]).contains(',') by {
        if !v.paths.contains_key(code_view(j as nat)) {
            assert(p[j] =~= Seq::<char>::empty());
        }
    }
    match v.source {
        None => {
            assert(value_pieces(v) == p);
            lemma_split_join(p, ',');
        },
        Some(src) => {
            assert(value_pieces(v) == p.push(src));
            lemma_join_push(p, src, ',');
            lemma_split_join_then(p, src, ',');
            assert((p + split_on(src, ','))[i as int] == p[i as int]);
        },
    }
}

/// The standard cursors, in the order of the derived `Ord` (declaration order).
pub fn standard_cursors() -> (r: Vec<Cursor>)
    ensures
        r.len() == STANDARD_COUNT,
        forall|i: int| 0 <= i < r.len() ==> #[trigger] r[i]@ == code_view(i as nat),
{
    let all = Cursor::all();
    let mut r: Vec<Cursor> = Vec::new();
    let mut i: usize = 0;
    while i < all.len()
        invariant
            i <= all.len(),
            all.len() == 19,
            forall|j: int| 0 <= j < all.len() ==> #[trigger] all[j]@ == code_view(j as nat),
            r.len() == if i < 17 { i } else { 17 },
            forall|j: int| 0 <= j < r.len() ==> #[trigger] r[j]@ == code_view(j as nat),
        decreases all.len() - i,
    {
        assert(all[i as int]@ == code_view(i as nat));
        if all[i].is_standard() {
            r.push(all[i].duplicate());
        }
        i = i + 1;
    }
    r
}

impl CursorScheme {
    /// Reads a registry value: the comma-separated files of the standard
    /// cursors in order, then, for a system scheme, `@` and the source of its
    /// display name. A value with an `@` gives a system scheme; where one is
    /// expected and the value has none, the value is refused.
    pub fn parse_reg_value(value: &str, name: String, expect_source: bool) -> (r: Result<
        CursorScheme,
        SchemeError,
    >)
        ensures
            match spec_parse(value@, expect_source) {
                None => r == Err::<CursorScheme, SchemeError>(SchemeError::MissingSource),
                Some((source, paths)) => r matches Ok(s) && s@.paths == paths && s@.source
                    == source && s@.name == (source is Some, name@),
            },
    {
        let chars = chars_of(value);
        let at = position_of(chars.as_slice(), '@');
        let (body, rest) = chars.as_slice().split_at(at);
        let source: Option<Vec<char>> = if at < chars.len() {
            let mut src: Vec<char> = Vec::new();
            src.push('@');
            src.extend_from_slice(&rest[1..rest.len()]);
            proof {
                assert(src@ =~= seq!['@'] + value@.skip(at as int + 1));
            }
            Some(src)
        } else {
            if expect_source {
                return Err(SchemeError::MissingSource);
            }
            None
        };
        proof {
            if at == chars.len() {
                assert(body@ =~= value@);
            }
        }
        let pieces = split_chars(body, ',');
        let ghost views = pieces@.map_values(|p: Vec<char>| p@);
        let cursors = standard_cursors();
        let mut paths = CursorPathMap::new();
        let mut i: usize = 0;
        while i < pieces.len()
            invariant
                i <= pieces.len(),
                views == pieces@.map_values(|p: Vec<char>| p@),
                cursors.len() == STANDARD_COUNT,
                forall|j: int| 0 <= j < cursors.len() ==> #[trigger] cursors[j]@ == code_view(
                    j as nat,
                ),
                paths@ == paths_from_pieces(views.take(i as int)),
            decreases pieces.len() - i,
        {
            let ghost before = paths@;
            if i < cursors.len() {
                paths.insert(cursors[i].duplicate(), string_of(pieces[i].as_slice()));
            }
            proof {
                assert(paths@ =~= paths_from_pieces(views.take(i as int + 1)));
            }
            i = i + 1;
        }
        proof {
            assert(views.take(i as int) =~= views);
        }
        match source {
            Some(src) => Ok(
                CursorScheme::Machine {
                    name: CursorSchemeName::Machine(name),
                    source: string_of(src.as_slice()),
                    paths,
                },
            ),
            None => Ok(CursorScheme::User { name: CursorSchemeName::User(name), paths }),
        }
    }

    /// The registry value of the scheme: the files of the standard cursors in
    /// order (empty where a cursor has none), then the source of a system
    /// scheme, joined with commas.
    pub fn stringify_reg_value(&self) -> (r: String)
        ensures
            r@ == spec_stringify(self@),
    {
        let cursors = standard_cursors();
        let paths = self.paths();
        let mut pieces: Vec<Vec<char>> = Vec::new();
        let mut i: usize = 0;
        while i < cursors.len()
            invariant
                i <= cursors.len(),
                cursors.len() == STANDARD_COUNT,
                forall|j: int| 0 <= j < cursors.len() ==> #[trigger] cursors[j]@ == code_view(
                    j as nat,
                ),
                paths@ == self@.paths,
                pieces.len() == i,
                forall|j: int| 0 <= j < i ==> (#[trigger] pieces@[j])@ == path_or_empty(
                    self@.paths,
                    j as nat,
                ),
            decreases cursors.len() - i,
        {
            let piece = match paths.get(&cursors[i]) {
                Some(p) => chars_of(p.as_str()),
                None => Vec::new(),
            };
            pieces.push(piece);
            i = i + 1;
        }
        let ghost standard = pieces@.map_values(|p: Vec<char>| p@);
        if let CursorScheme::Machine { source, .. } = self {
            pieces.push(chars_of(source.as_str()));
        }
        proof {
            let expected = value_pieces(self@);
            assert(pieces@.map_values(|p: Vec<char>| p@) =~= expected);
        }
        string_of(join_chars(&pieces, ',').as_slice())
    }

    /// Reads the scheme `name` from its registry value `value`: a user scheme
    /// may lack a display-name source; a system scheme must have one.
    pub fn read(name: CursorSchemeName, value: &str) -> (r: Result<CursorScheme, SchemeError>)
        ensures
            match spec_parse(value@, name.spec_view().0) {
                None => r == Err::<CursorScheme, SchemeError>(SchemeError::MissingSource),
                Some((source, paths)) => r matches Ok(s) && s@.paths == paths && s@.source
                    == source && s@.name == (source is Some, name.spec_view().1),
            },
    {
        match name {
            CursorSchemeName::User(name) => Self::parse_reg_value(value, name, false),
            CursorSchemeName::Machine(name) => Self::parse_reg_value(value, name, true),
        }
    }

    /// What writing the scheme stores: the name of the registry value and its
    /// data, or `EmptyName` for a scheme without a name.
    pub fn registry_entry(&self) -> (r: Result<(String, String), SchemeError>)
        ensures
            self@.name.1.len() == 0 ==> r == Err::<(String, String), SchemeError>(
                SchemeError::EmptyName,
            ),
            self@.name.1.len() > 0 ==> (r matches Ok((n, v)) && n@ == self@.name.1 && v@
                == spec_stringify(self@)),
    {
        let name = self.name();
        if name.as_str().is_empty() {
            return Err(SchemeError::EmptyName);
        }
        Ok((name, self.stringify_reg_value()))
    }

    /// The user's schemes, from the names of the values under the user's
    /// schemes key: every non-empty name.
    pub fn user_cursors(value_names: &Vec<String>) -> (r: Vec<CursorSchemeName>)
        ensures
            r.len() == listed_names(views(value_names@)).len(),
            forall|i: int| 0 <= i < r.len() ==> (#[trigger] r@[i]).spec_view() == (false, listed_names(
                views(value_names@),
            )[i]),
    {
        scheme_names(value_names, false)
    }

    /// The system's schemes, from the names of the values under the system's
    /// schemes key: every non-empty name.
    pub fn machine_cursors(value_names: &Vec<String>) -> (r: Vec<CursorSchemeName>)
        ensures
            r.len() == listed_names(views(value_names@)).len(),
            forall|i: int| 0 <= i < r.len() ==> (#[trigger] r@[i]).spec_view() == (true, listed_names(
                views(value_names@),
            )[i]),
    {
        scheme_names(value_names, true)
    }

    /// The name under which the scheme is shown: its name for a user scheme;
    /// for a system scheme, the text before the first NUL in `loaded`, the
    /// buffer that resolving its indirect display-name source filled.
    pub fn display_name(&self, loaded: &[u16]) -> (r: String)
        ensures
            self@.source is None ==> r@ == self@.name.1,
            self@.source is Some ==> r@ == spec_utf16_lossy(until_nul(loaded@)),
    {
        match self {
            CursorScheme::User { name, .. } => name.to_string(),
            CursorScheme::Machine { .. } => text_until_nul(loaded),
        }
    }

    /// The name of the scheme.
    pub open spec fn spec_name(self) -> CursorSchemeName {
        match self {
            CursorScheme::User { name, .. } => name,
            CursorScheme::Machine { name, .. } => name,
        }
    }

    /// The scheme's name entry.
    pub fn name_entry(&self) -> (r: &CursorSchemeName)
        ensures
            *r == self.spec_name(),
    {
        match self {
            CursorScheme::User { name, .. } => name,
            CursorScheme::Machine { name, .. } => name,
        }
    }

    /// The name of the scheme.
    pub fn name(&self) -> (r: String)
        ensures
            r@ == self@.name.1,
    {
        self.name_entry().to_string()
    }

    /// Whether the scheme exists, given what the registry answered when asked
    /// for the value at the name's location.
    pub fn is_registered(&self, lookup: &Result<String, i32>) -> (r: Result<bool, SchemeError>)
        ensures
            r == lookup_outcome(*lookup),
    {
        self.name_entry().is_registered(lookup)
    }

    /// The files of the scheme.
    pub fn paths(&self) -> (r: &CursorPathMap)
        ensures
            r@ == self@.paths,
    {
        match self {
            CursorScheme::User { paths, .. } => paths,
            CursorScheme::Machine { paths, .. } => paths,
        }
    }

    /// Sets the file of a cursor, and gives back the file it had.
    pub fn set_path(&mut self, cursor: Cursor, path: String) -> (r: Option<String>)
        ensures
            final(self)@.name == old(self)@.name,
            final(self)@.source == old(self)@.source,
            final(self)@.paths == old(self)@.paths.insert(cursor@, path@),
            r is Some == old(self)@.paths.contains_key(cursor@),
            r matches Some(o) ==> o@ == old(self)@.paths[cursor@],
    {
        match self {
            CursorScheme::User { paths, .. } => paths.insert(cursor, path),
            CursorScheme::Machine { paths, .. } => paths.insert(cursor, path),
        }
    }

    /// Removes the file of a cursor, and gives back the file it had.
    pub fn remove_path(&mut self, cursor: &Cursor) -> (r: Option<String>)
        ensures
            final(self)@.name == old(self)@.name,
            final(self)@.source == old(self)@.source,
            final(self)@.paths == old(self)@.paths.remove(cursor@),
            r is Some == old(self)@.paths.contains_key(cursor@),
            r matches Some(o) ==> o@ == old(self)@.paths[cursor@],
    {
        match self {
            CursorScheme::User { paths, .. } => paths.remove(cursor),
            CursorScheme::Machine { paths, .. } => paths.remove(cursor),
        }
    }

    /// The cursors and their files, in no particular order.
    pub fn into_entries(self) -> (r: Vec<(Cursor, String)>)
        ensures
            forall|i: int| 0 <= i < r.len() ==> self@.paths.contains_key((#[trigger] r@[i]).0@)
                && self@.paths[r@[i].0@] == r@[i].1@,
            forall|k: (nat, Seq<char>)| #[trigger] self@.paths.contains_key(k) ==> exists|i: int|
                0 <= i < r.len() && (#[trigger] r@[i]).0@ == k,
            forall|i: int, j: int| 0 <= i < j < r.len() ==> (#[trigger] r@[i]).0@ != (
            #[trigger] r@[j]).0@,
    {
        match self {
            CursorScheme::User { paths, .. } => paths.into_entries(),
            CursorScheme::Machine { paths, .. } => paths.into_entries(),
        }
    }
}

} // verus!
