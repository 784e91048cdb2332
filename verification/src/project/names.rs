//! Names of projects and of the directories that hold them.
use crate::ids;
use crate::text;
use chrono::Datelike;
use vstd::prelude::*;
use vstd::string::*;

verus! {

pub const MAX_PROJECT_NAME_CHARS: usize = 80;

/// A day of the calendar.
#[derive(Debug, Clone, Copy, PartialEq, Eq, Structural)]
pub struct CalendarDate {
    pub year: i32,
    pub month: u32,
    pub day: u32,
}

pub open spec fn leap_year(y: int) -> bool {
    y % 4 == 0 && (y % 100 != 0 || y % 400 == 0)
}

/// The days of a month of the Gregorian calendar.
pub open spec fn month_days(y: int, m: int) -> int {
    if m == 2 {
        if leap_year(y) {
            29
        } else {
            28
        }
    } else if m == 4 || m == 6 || m == 9 || m == 11 {
        30
    } else {
        31
    }
}

/// The first three letters of a month's name.
pub open spec fn month_name(m: int) -> Seq<char> {
    if m == 1 {
        "Jan"@
    } else if m == 2 {
        "Feb"@
    } else if m == 3 {
        "Mar"@
    } else if m == 4 {
        "Apr"@
    } else if m == 5 {
        "May"@
    } else if m == 6 {
        "Jun"@
    } else if m == 7 {
        "Jul"@
    } else if m == 8 {
        "Aug"@
    } else if m == 9 {
        "Sep"@
    } else if m == 10 {
        "Oct"@
    } else if m == 11 {
        "Nov"@
    } else {
        "Dec"@
    }
}

impl CalendarDate {
    /// Whether there is such a day, in a year that dates can hold.
    pub open spec fn wf(self) -> bool {
        &&& -262_143 <= self.year <= 262_142
        &&& 1 <= self.month <= 12
        &&& 1 <= self.day <= month_days(self.year as int, self.month as int)
    }

    /// The name of a project made on this day.
    pub open spec fn untitled(self) -> Seq<char> {
        "Untitled "@ + text::decimal(self.day as nat) + " "@ + month_name(self.month as int) + " "@
            + year_text(self.year as int)
    }
}

/// A year with at least four digits, and with a sign if it is not from 0 to 9999.
pub open spec fn year_text(y: int) -> Seq<char> {
    if y < 0 {
        "-"@ + text::padded((-y) as nat, 4)
    } else if y > 9999 {
        "+"@ + text::padded(y as nat, 4)
    } else {
        text::padded(y as nat, 4)
    }
}

/// `NaiveDate::format` of chrono, with the pattern `Untitled %-d %b %Y`, writes the
/// day without padding, the month's English short name, and the year with at least
/// four digits. Years before 0 and after 9999 get a sign.
#[verifier::external_body]
fn format_untitled(date: CalendarDate) -> (r: String)
    requires
        date.wf(),
    ensures
        r@ == date.untitled(),
{
    let d = chrono::NaiveDate::from_ymd_opt(date.year, date.month, date.day).unwrap();
    d.format("Untitled %-d %b %Y").to_string()
}

/// `chrono::Local::now` gives the present day of the local calendar. Which one it
/// is, is left to the clock.
#[verifier::external_body]
fn today() -> (date: CalendarDate)
    ensures
        date.wf(),
{
    let now = chrono::Local::now();
    CalendarDate { year: now.year(), month: now.month(), day: now.day() }
}

/// The name of a project made on a given day, such as "Untitled 9 Sep 2026".
pub fn default_project_name_at(date: CalendarDate) -> (r: String)
    requires
        date.wf(),
    ensures
        r@ == date.untitled(),
{
    format_untitled(date)
}

/// Whether `s` is the name of a project made on a given day.
pub open spec fn dated(s: Seq<char>, date: CalendarDate) -> bool {
    date.wf() && s == date.untitled()
}

/// Whether `s` is the name of a project made on some day.
pub open spec fn is_dated(s: Seq<char>) -> bool {
    exists|date: CalendarDate| dated(s, date)
}

/// The name of a project made today.
pub fn default_project_name() -> (r: String)
    ensures
        is_dated(r@),
{
    let date = today();
    let r = default_project_name_at(date);
    assert(dated(r@, date));
    r
}

/// What is shown of a name that was typed in: at most eighty characters, without
/// the white space at its ends. `None` when there is nothing left.
pub open spec fn shown_name(raw: Seq<char>) -> Option<Seq<char>> {
    let t = text::trimmed(raw);
    if t.len() == 0 {
        None
    } else if t.len() <= MAX_PROJECT_NAME_CHARS {
        Some(t)
    } else {
        Some(t.take(MAX_PROJECT_NAME_CHARS as int))
    }
}

/// What is shown of a name that was typed in.
pub fn typed_name(raw: &str) -> (r: Option<String>)
    ensures
        match r {
            Some(n) => shown_name(raw@) == Some(n@),
            None => shown_name(raw@) is None,
        },
{
    let t = text::trim(raw);
    let v = text::to_chars(t.as_str());
    if v.len() == 0 {
        return None;
    }
    let n: usize = if v.len() <= MAX_PROJECT_NAME_CHARS {
        v.len()
    } else {
        MAX_PROJECT_NAME_CHARS
    };
    assert(v@.subrange(0, n as int) =~= t@.take(n as int));
    assert(t@.take(t@.len() as int) =~= t@);
    Some(text::from_chars(&v, 0, n))
}

/// The name under which a project is shown: what was typed in, or a dated name.
pub fn display_name_from_input(raw: &str) -> (r: String)
    ensures
        match shown_name(raw@) {
            Some(n) => r@ == n,
            None => is_dated(r@),
        },
{
    match typed_name(raw) {
        Some(n) => n,
        None => default_project_name(),
    }
}

/// The name under which a project is shown: what was typed in, or a name with the
/// given date.
pub fn display_name_from_input_at(raw: &str, date: CalendarDate) -> (r: String)
    requires
        date.wf(),
    ensures
        match shown_name(raw@) {
            Some(n) => r@ == n,
            None => r@ == date.untitled(),
        },
{
    match typed_name(raw) {
        Some(n) => n,
        None => default_project_name_at(date),
    }
}

/// Whether a character cannot stand in a file name.
pub open spec fn reserved(c: char) -> bool {
    text::control(c) || c == '/' || c == '\\' || c == ':' || c == '*' || c == '?' || c == '"' || c
        == '<' || c == '>' || c == '|'
}

/// Whether a character cannot stand in a file name.
pub fn is_reserved(c: char) -> (r: bool)
    ensures
        r == reserved(c),
{
    text::is_control(c) || c == '/' || c == '\\' || c == ':' || c == '*' || c == '?' || c == '"'
        || c == '<' || c == '>' || c == '|'
}

/// `s` without the characters that cannot stand in a file name.
pub open spec fn unreserved(s: Seq<char>) -> Seq<char>
    decreases s.len(),
{
    if s.len() == 0 {
        Seq::empty()
    } else if reserved(s.last()) {
        unreserved(s.drop_last())
    } else {
        unreserved(s.drop_last()).push(s.last())
    }
}

fn without_reserved(s: &str) -> (r: String)
    ensures
        r@ == unreserved(s@),
{
    let v = text::to_chars(s);
    let mut out: String = String::new();
    let mut i: usize = 0;
    assert(s@.take(0) =~= Seq::<char>::empty());
    while i < v.len()
        invariant
            i <= v@.len(),
            v@ == s@,
            out@ == unreserved(s@.take(i as int)),
        decreases v@.len() - i,
    {
        assert(s@.take(i + 1).drop_last() =~= s@.take(i as int));
        if !is_reserved(v[i]) {
            out.push(v[i]);
        }
        i = i + 1;
    }
    assert(s@.take(s@.len() as int) =~= s@);
    out
}

/// What a directory can be called after a project: its name without characters that
/// cannot stand there, and without full stops at its ends.
pub open spec fn folder_stem(name: Seq<char>) -> Seq<char> {
    text::undotted(text::trimmed(unreserved(name)))
}

/// What a file can be called after a project.
pub fn file_stem_for(name: &str) -> (r: String)
    ensures
        r@ == folder_stem(name@),
{
    let kept = without_reserved(name);
    text::trim_dots(text::trim(kept.as_str()).as_str())
}

/// A bundle's name: with the extension of bundles, in whichever case.
pub open spec fn with_extension(stem: Seq<char>) -> Seq<char> {
    if text::has_suffix(text::lowered(stem), ".aero"@) {
        stem
    } else {
        stem + ".aero"@
    }
}

/// Whether `folder` is the directory of a bundle that is shown as `display`: a dated name
/// where nothing is left of it.
pub open spec fn is_folder_name(folder: Seq<char>, display: Seq<char>) -> bool {
    if folder_stem(display).len() > 0 {
        folder == with_extension(folder_stem(display))
    } else {
        exists|name: Seq<char>| is_dated(name) && folder == #[trigger] (name + ".aero"@)
    }
}

/// The directory of a bundle.
pub fn bundle_folder_name(display_name: &str) -> (r: String)
    ensures
        is_folder_name(r@, display_name@),
{
    let stem = file_stem_for(display_name);
    if stem.as_str().is_empty() {
        let mut r: String = default_project_name();
        let ghost name = r@;
        r.append(".aero");
        assert(r@ == name + ".aero"@);
        return r;
    }
    let lower = text::to_ascii_lowercase(stem.as_str());
    if text::ends_with(lower.as_str(), ".aero") {
        stem
    } else {
        let mut r: String = stem;
        r.append(".aero");
        r
    }
}

/// A bundle's name without its extension.
pub open spec fn bundle_stem(folder: Seq<char>) -> Seq<char> {
    if text::has_suffix(folder, ".aero"@) || text::has_suffix(folder, ".Aero"@) || text::has_suffix(
        folder,
        ".AERO"@,
    ) {
        folder.take(folder.len() - 5)
    } else {
        folder
    }
}

/// The name that is tried next for a bundle's directory, when earlier ones are
/// taken: the folder's own name, the stem with a number from two on, and at the
/// ten-thousandth attempt the stem with a fresh identifier.
pub fn unique_bundle_name(folder_name: &str, attempt: u32) -> (r: String)
    ensures
        ({
            let stem = bundle_stem(folder_name@);
            if attempt < 2 {
                r@ == folder_name@
            } else if attempt < 10_000 {
                r@ == stem + " "@ + text::decimal(attempt as nat) + ".aero"@
            } else {
                exists|id: Seq<char>|
                    ids::is_id(id) && r@ == #[trigger] (stem + " "@ + id + ".aero"@)
            }
        }),
{
    if attempt < 2 {
        return folder_name.to_owned();
    }
    let v = text::to_chars(folder_name);
    proof {
        reveal_strlit(".aero");
        reveal_strlit(".Aero");
        reveal_strlit(".AERO");
    }
    let n: usize = if text::ends_with(folder_name, ".aero") || text::ends_with(folder_name, ".Aero")
        || text::ends_with(folder_name, ".AERO") {
        v.len() - 5
    } else {
        v.len()
    };
    let mut r: String = text::from_chars(&v, 0, n);
    assert(r@ =~= bundle_stem(folder_name@));
    r.append(" ");
    if attempt < 10_000 {
        text::push_decimal(&mut r, attempt as u64);
        r.append(".aero");
    } else {
        let id = ids::new_id();
        r.append(id.as_str());
        r.append(".aero");
        assert(r@ == bundle_stem(folder_name@) + " "@ + id@ + ".aero"@);
    }
    r
}

proof fn lemma_unreserved(s: Seq<char>)
    ensures
        forall|i: int| 0 <= i < unreserved(s).len() ==> !reserved(#[trigger] unreserved(s)[i]),
    decreases s.len(),
{
    if s.len() > 0 {
        lemma_unreserved(s.drop_last());
        let t = unreserved(s.drop_last());
        assert forall|i: int| 0 <= i < unreserved(s).len() implies !reserved(
            #[trigger] unreserved(s)[i],
        ) by {
            if i < t.len() {
                assert(unreserved(s)[i] == t[i]);
            }
        }
    }
}

proof fn lemma_strip_start(s: Seq<char>, p: spec_fn(char) -> bool)
    ensures
        forall|i: int|
            0 <= i < text::strip_start(s, p).len() ==> s.contains(
                #[trigger] text::strip_start(s, p)[i],
            ),
    decreases s.len(),
{
    if s.len() > 0 && p(s[0]) {
        lemma_strip_start(s.skip(1), p);
        assert forall|i: int| 0 <= i < text::strip_start(s, p).len() implies s.contains(
            #[trigger] text::strip_start(s, p)[i],
        ) by {
            let c = text::strip_start(s, p)[i];
            assert(s.skip(1).contains(text::strip_start(s.skip(1), p)[i]));
            let k = choose|k: int| 0 <= k < s.skip(1).len() && s.skip(1)[k] == c;
            assert(s[k + 1] == c);
        }
    }
}

proof fn lemma_strip_end(s: Seq<char>, p: spec_fn(char) -> bool)
    ensures
        forall|i: int|
            0 <= i < text::strip_end(s, p).len() ==> s.contains(#[trigger] text::strip_end(s, p)[i]),
    decreases s.len(),
{
    if s.len() > 0 && p(s.last()) {
        lemma_strip_end(s.drop_last(), p);
        assert forall|i: int| 0 <= i < text::strip_end(s, p).len() implies s.contains(
            #[trigger] text::strip_end(s, p)[i],
        ) by {
            let c = text::strip_end(s, p)[i];
            assert(s.drop_last().contains(text::strip_end(s.drop_last(), p)[i]));
            let k = choose|k: int| 0 <= k < s.drop_last().len() && s.drop_last()[k] == c;
            assert(s[k] == c);
        }
    }
}

proof fn lemma_strip(s: Seq<char>, p: spec_fn(char) -> bool)
    ensures
        forall|i: int|
            0 <= i < text::strip(s, p).len() ==> s.contains(#[trigger] text::strip(s, p)[i]),
{
    let t = text::strip_start(s, p);
    lemma_strip_start(s, p);
    lemma_strip_end(t, p);
    assert forall|i: int| 0 <= i < text::strip(s, p).len() implies s.contains(
        #[trigger] text::strip(s, p)[i],
    ) by {
        let c = text::strip(s, p)[i];
        let k = choose|k: int| 0 <= k < t.len() && t[k] == c;
        assert(s.contains(t[k]));
    }
}

/// Whatever a project is called, its directory's name holds no separator and no
/// other character that cannot stand in a file name.
pub proof fn folder_names_stay_in_place(name: Seq<char>)
    ensures
        forall|i: int| 0 <= i < folder_stem(name).len() ==> !reserved(#[trigger] folder_stem(name)[i]),
{
    let u = unreserved(name);
    let t = text::trimmed(u);
    lemma_unreserved(name);
    lemma_strip(u, |c: char| text::white_space(c));
    lemma_strip(t, |c: char| c == '.');
    assert forall|i: int| 0 <= i < folder_stem(name).len() implies !reserved(
        #[trigger] folder_stem(name)[i],
    ) by {
        let c = folder_stem(name)[i];
        assert(t.contains(c));
        let k = choose|k: int| 0 <= k < t.len() && t[k] == c;
        assert(u.contains(t[k]));
        let j = choose|j: int| 0 <= j < u.len() && u[j] == c;
        assert(!reserved(u[j]));
    }
}

/// A typed name is kept but for the white space around it, up to as many characters as a name
/// may have. There is none just where nothing but white space was typed.
pub proof fn typed_names_are_kept(raw: Seq<char>)
    ensures
        shown_name(raw) is None <==> forall|i: int|
            0 <= i < raw.len() ==> text::white_space(#[trigger] raw[i]),
        shown_name(raw) matches Some(n) ==> 0 < n.len() <= 80 && n == text::trimmed(raw).take(
            n.len() as int,
        ) && (n.len() == 80 || n == text::trimmed(raw)),
{
    let ends = text::trimming_takes_white_space_off(raw);
    let t = text::trimmed(raw);
    assert(t.take(t.len() as int) =~= t);
    if t.len() > 0 {
        assert(t[0] == raw[ends.0]);
        assert(!text::white_space(raw[ends.0]));
    } else {
        assert forall|i: int| 0 <= i < raw.len() implies text::white_space(#[trigger] raw[i]) by {
            assert(ends.0 == ends.1);
        }
    }
}

/// A folder name keeps every character that a path can hold, in its order, and no other.
pub proof fn plain_characters_are_kept(s: Seq<char>)
    ensures
        unreserved(s) == s.filter(|c: char| !reserved(c)),
    decreases s.len(),
{
    reveal(Seq::filter);
    if s.len() > 0 {
        plain_characters_are_kept(s.drop_last());
    }
}

/// A folder has the extension of a project once, and without it the name that it was given.
pub proof fn folders_have_their_extension_once(stem: Seq<char>)
    ensures
        text::has_suffix(text::lowered(with_extension(stem)), ".aero"@),
        with_extension(with_extension(stem)) == with_extension(stem),
        bundle_stem(stem + ".aero"@) == stem,
        text::has_suffix(text::lowered(stem), ".aero"@) ==> with_extension(stem) == stem,
        !text::has_suffix(text::lowered(stem), ".aero"@) ==> with_extension(stem) == stem
            + ".aero"@,
{
    reveal_strlit(".aero");
    reveal_strlit(".Aero");
    reveal_strlit(".AERO");
    let full = stem + ".aero"@;
    let low = text::lowered(full);
    assert(low.skip(low.len() - 5) =~= ".aero"@);
    assert(full.skip(full.len() - 5) =~= ".aero"@);
    assert(full.take(full.len() - 5) =~= stem);
}

} // verus!
