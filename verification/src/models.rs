//! Data model: bin identifiers (UUID-v4 shaped strings), captured requests,
//! bin summaries, and the ordered multi-valued mapping used for headers and
//! query parameters.

use vstd::prelude::*;
use vstd::string::StrSliceExecFns;
use vstd::string::StringExecFns;

use crate::text::lower;
use crate::text::str_eq;
use crate::text::str_eq_ignore_ascii_case;

verus! {

/// The character is an ASCII hexadecimal digit, either case.
pub open spec fn is_hex_digit(c: char) -> bool {
    (48 <= c as u32 && c as u32 <= 57) || (97 <= c as u32 && c as u32 <= 102) || (65 <= c as u32
        && c as u32 <= 70)
}

/// The character is an allowed variant nibble of a version-4 UUID:
/// 8, 9, a or b, either case.
pub open spec fn is_uuid_variant_char(c: char) -> bool {
    c == '8' || c == '9' || c == 'a' || c == 'b' || c == 'A' || c == 'B'
}

/// What must stand at position `i` of the canonical 36-character UUID-v4 text:
/// hyphens at 8, 13, 18 and 23, the version digit 4 at 14, a variant nibble at
/// 19, and hexadecimal digits everywhere else.
pub open spec fn uuid_char_ok(s: Seq<char>, i: int) -> bool
    recommends
        0 <= i < s.len(),
{
    if i == 8 || i == 13 || i == 18 || i == 23 {
        s[i] == '-'
    } else if i == 14 {
        s[i] == '4'
    } else if i == 19 {
        is_uuid_variant_char(s[i])
    } else {
        is_hex_digit(s[i])
    }
}

/// The sequence is the canonical textual form of a version-4 UUID,
/// case-insensitively.
pub open spec fn is_uuid_v4(s: Seq<char>) -> bool {
    s.len() == 36 && forall|i: int| 0 <= i < 36 ==> #[trigger] uuid_char_ok(s, i)
}

/// Decides whether a string is the canonical textual form of a version-4 UUID.
pub fn uuid_v4_valid(s: &str) -> (r: bool)
    ensures
        r == is_uuid_v4(s@),
{
    let n = s.unicode_len();
    if n != 36 {
        return false;
    }
    let mut i: usize = 0;
    while i < 36
        invariant
            i <= 36,
            s@.len() == 36,
            forall|j: int| 0 <= j < i ==> #[trigger] uuid_char_ok(s@, j),
        decreases 36 - i,
    {
        let c = s.get_char(i);
        let ok: bool = if i == 8 || i == 13 || i == 18 || i == 23 {
            c == '-'
        } else if i == 14 {
            c == '4'
        } else if i == 19 {
            c == '8' || c == '9' || c == 'a' || c == 'b' || c == 'A' || c == 'B'
        } else {
            let v = c as u32;
            (48 <= v && v <= 57) || (97 <= v && v <= 102) || (65 <= v && v <= 70)
        };
        if !ok {
            proof {
                assert(!uuid_char_ok(s@, i as int));
            }
            return false;
        }
        i += 1;
    }
    true
}

/// Id type for request bins. Wraps the canonical UUID-v4 text.
///
/// To construct an `Id`, use an `IdExtractor`'s `parse` method, or the static
/// `random()` method.
#[derive(PartialEq, Debug, Eq, Hash, Clone)]
pub struct Id(String);

impl View for Id {
    type V = Seq<char>;

    closed spec fn view(&self) -> Seq<char> {
        self.0@
    }
}

/// Relies on uuid::Uuid::new_v4 and the hyphenated Display form that
/// to_string renders: a random version-4 UUID printed as 36 lower-case
/// hexadecimal characters with hyphens at positions 8, 13, 18 and 23, the
/// version digit 4 and a variant nibble of 8, 9, a or b.
#[verifier::external_body]
fn fresh_uuid_string() -> (r: String)
    ensures
        is_uuid_v4(r@),
{
    uuid::Uuid::new_v4().to_string()
}

impl Id {
    /// Generates a random identifier in canonical UUID-v4 form.
    pub fn random() -> (r: Id)
        ensures
            is_uuid_v4(r@),
    {
        Id(fresh_uuid_string())
    }

    /// Gets the text out of an identifier.
    pub fn value(&self) -> (r: &str)
        ensures
            r@ == self@,
    {
        self.0.as_str()
    }

    /// A second identifier carrying the same text.
    pub fn duplicate(&self) -> (r: Id)
        ensures
            r@ == self@,
    {
        Id(self.0.clone())
    }

    /// Whether two identifiers carry the same text.
    pub fn same_as(&self, other: &Id) -> (r: bool)
        ensures
            r == (self@ == other@),
    {
        str_eq(self.0.as_str(), other.0.as_str())
    }
}

/// Parses strings into identifiers: a string is accepted exactly when it is
/// the full canonical UUID-v4 text.
pub struct IdExtractor;

impl IdExtractor {
    /// Returns a new extractor.
    pub fn new() -> IdExtractor {
        IdExtractor
    }

    /// Parses a string into an identifier if it is of the right format.
    pub fn parse(&self, s: &str) -> (r: Option<Id>)
        ensures
            r is Some <==> is_uuid_v4(s@),
            r is Some ==> r.unwrap()@ == s@,
    {
        if uuid_v4_valid(s) {
            Some(Id(String::from_str(s)))
        } else {
            None
        }
    }
}

/// One name with its values, in arrival order.
pub type MultiEntry = (String, Vec<String>);

/// View of a multi-valued mapping: names with their value lists, in first
/// arrival order of the names.
pub type MultiMapView = Seq<(Seq<char>, Seq<Seq<char>>)>;

/// First index carrying `name` in the mapping view, or -1 when absent.
pub open spec fn mm_index_of(m: MultiMapView, name: Seq<char>) -> int
    decreases m.len(),
{
    if m.len() == 0 {
        -1
    } else if m[0].0 == name {
        0
    } else {
        let r = mm_index_of(m.drop_first(), name);
        if r < 0 {
            -1
        } else {
            r + 1
        }
    }
}

/// First index whose name equals `name` up to ASCII case, or -1 when absent.
pub open spec fn mm_index_of_ci(m: MultiMapView, name: Seq<char>) -> int
    decreases m.len(),
{
    if m.len() == 0 {
        -1
    } else if lower(m[0].0) == lower(name) {
        0
    } else {
        let r = mm_index_of_ci(m.drop_first(), name);
        if r < 0 {
            -1
        } else {
            r + 1
        }
    }
}

/// What `mm_index_of` finds: the first index with that exact name, inside
/// bounds, and nothing when no index has it.
pub proof fn lemma_mm_index_of(m: MultiMapView, name: Seq<char>)
    ensures
        mm_index_of(m, name) >= 0 ==> mm_index_of(m, name) < m.len() && m[mm_index_of(m, name)].0
            == name && (forall|j: int| 0 <= j < mm_index_of(m, name) ==> (#[trigger] m[j]).0 != name),
        mm_index_of(m, name) < 0 ==> mm_index_of(m, name) == -1 && (forall|j: int|
            0 <= j < m.len() ==> (#[trigger] m[j]).0 != name),
    decreases m.len(),
{
    if m.len() != 0 && m[0].0 != name {
        lemma_mm_index_of(m.drop_first(), name);
        assert(forall|j: int|
            1 <= j < m.len() ==> (#[trigger] m[j]) == m.drop_first()[j - 1]);
    }
}

/// What `mm_index_of_ci` finds, as `lemma_mm_index_of` but up to ASCII case.
pub proof fn lemma_mm_index_of_ci(m: MultiMapView, name: Seq<char>)
    ensures
        mm_index_of_ci(m, name) >= 0 ==> mm_index_of_ci(m, name) < m.len() && lower(
            m[mm_index_of_ci(m, name)].0,
        ) == lower(name) && (forall|j: int|
            0 <= j < mm_index_of_ci(m, name) ==> lower((#[trigger] m[j]).0) != lower(name)),
        mm_index_of_ci(m, name) < 0 ==> mm_index_of_ci(m, name) == -1 && (forall|j: int|
            0 <= j < m.len() ==> lower((#[trigger] m[j]).0) != lower(name)),
    decreases m.len(),
{
    if m.len() != 0 && lower(m[0].0) != lower(name) {
        lemma_mm_index_of_ci(m.drop_first(), name);
        assert(forall|j: int|
            1 <= j < m.len() ==> (#[trigger] m[j]) == m.drop_first()[j - 1]);
    }
}

/// Appending a value under a name: the first entry with that exact name grows
/// by the value at the end; a fresh name opens a new entry at the end.
pub open spec fn mm_append(m: MultiMapView, name: Seq<char>, value: Seq<char>) -> MultiMapView {
    let i = mm_index_of(m, name);
    if i < 0 {
        m.push((name, seq![value]))
    } else {
        m.update(i, (m[i].0, m[i].1.push(value)))
    }
}

/// View of one stored entry: the name with its values, as sequences.
pub open spec fn entry_view(e: MultiEntry) -> (Seq<char>, Seq<Seq<char>>) {
    (e.0@, e.1.deep_view())
}

/// An ordered multi-valued mapping from names to lists of values, preserving
/// duplicates and insertion order per name.
#[derive(PartialEq, Debug, Eq)]
pub struct MultiMap {
    entries: Vec<MultiEntry>,
}

impl View for MultiMap {
    type V = MultiMapView;

    closed spec fn view(&self) -> MultiMapView {
        self.entries@.map_values(|e: MultiEntry| entry_view(e))
    }
}

impl MultiMap {
    /// An empty mapping.
    pub fn new() -> (r: MultiMap)
        ensures
            r@ == MultiMapView::empty(),
    {
        let r = MultiMap { entries: Vec::new() };
        proof {
            assert(r@ =~= MultiMapView::empty());
        }
        r
    }

    /// Number of distinct names.
    pub fn len(&self) -> (r: usize)
        ensures
            r == self@.len(),
    {
        self.entries.len()
    }

    /// Finds the first entry with this exact name.
    fn find(&self, name: &str) -> (r: Option<usize>)
        ensures
            r is Some ==> r.unwrap() as int == mm_index_of(self@, name@) && (r.unwrap() as int)
                < self@.len(),
            r is None ==> mm_index_of(self@, name@) == -1,
    {
        let n = self.entries.len();
        let mut i: usize = 0;
        while i < n
            invariant
                i <= n == self@.len(),
                self@.len() == self.entries@.len(),
                forall|j: int| 0 <= j < i ==> (#[trigger] self@[j]).0 != name@,
        decreases n - i,
        {
            proof {
                assert(self@[i as int] == entry_view(self.entries@[i as int]));
            }
            if str_eq(self.entries[i].0.as_str(), name) {
                proof {
                    lemma_mm_index_of(self@, name@);
                }
                return Some(i);
            }
            i += 1;
        }
        proof {
            lemma_mm_index_of(self@, name@);
        }
        None
    }

    /// Appends a value under a name, preserving arrival order per name.
    pub fn append(&mut self, name: String, value: String)
        ensures
            final(self)@ == mm_append(old(self)@, name@, value@),
    {
        let ghost m0 = self@;
        let ghost e0 = self.entries@;
        match self.find(name.as_str()) {
            Some(i) => {
                let mut entry = self.entries.remove(i);
                entry.1.push(value);
                self.entries.insert(i, entry);
                proof {
                    let ei = self.entries@[i as int];
                    assert(self.entries@ =~= e0.update(i as int, ei));
                    assert(forall|k: int|
                        0 <= k < self@.len() ==> #[trigger] self@[k] == entry_view(
                            self.entries@[k],
                        ));
                    assert(forall|k: int|
                        0 <= k < m0.len() ==> #[trigger] m0[k] == entry_view(e0[k]));
                    assert(ei.1@ == e0[i as int].1@.push(value));
                    assert(ei.1.deep_view() =~= e0[i as int].1.deep_view().push(value@));
                    assert(self@ =~~= mm_append(m0, name@, value@));
                }
            },
            None => {
                let mut values: Vec<String> = Vec::new();
                values.push(value);
                self.entries.push((name, values));
                proof {
                    assert(forall|k: int|
                        0 <= k < self@.len() ==> #[trigger] self@[k] == entry_view(
                            self.entries@[k],
                        ));
                    assert(forall|k: int|
                        0 <= k < m0.len() ==> #[trigger] m0[k] == entry_view(e0[k]));
                    assert(self.entries@[e0.len() as int].1.deep_view() =~= seq![value@]);
                    assert(self@ =~~= mm_append(m0, name@, value@));
                }
            },
        }
    }

    /// The entry at a position, in first-arrival order of the names.
    pub fn entry_at(&self, i: usize) -> (r: &MultiEntry)
        requires
            i < self@.len(),
        ensures
            entry_view(*r) == self@[i as int],
    {
        proof {
            assert(self@[i as int] == entry_view(self.entries@[i as int]));
        }
        &self.entries[i]
    }

    /// Values stored under this exact name, when present.
    pub fn get(&self, name: &str) -> (r: Option<&Vec<String>>)
        ensures
            r is Some ==> mm_index_of(self@, name@) >= 0 && r.unwrap().deep_view() == self@[mm_index_of(
                self@,
                name@,
            )].1,
            r is None ==> mm_index_of(self@, name@) == -1,
    {
        match self.find(name) {
            Some(i) => {
                proof {
                    assert(self@[i as int] == entry_view(self.entries@[i as int]));
                }
                Some(&self.entries[i].1)
            },
            None => None,
        }
    }

    /// First value stored under this name up to ASCII case, when present.
    pub fn get_first_ignore_ascii_case(&self, name: &str) -> (r: Option<&String>)
        ensures
            r is Some ==> mm_first_ci(self@, name@) is Some && r.unwrap()@ == mm_first_ci(
                self@,
                name@,
            ).unwrap(),
            r is None ==> mm_first_ci(self@, name@) is None,
    {
        let n = self.entries.len();
        let mut i: usize = 0;
        while i < n
            invariant
                i <= n == self@.len(),
                self@.len() == self.entries@.len(),
                forall|j: int| 0 <= j < i ==> lower((#[trigger] self@[j]).0) != lower(name@),
        decreases n - i,
        {
            proof {
                assert(self@[i as int] == entry_view(self.entries@[i as int]));
            }
            if str_eq_ignore_ascii_case(self.entries[i].0.as_str(), name) {
                proof {
                    lemma_mm_index_of_ci(self@, name@);
                }
                if self.entries[i].1.len() > 0 {
                    proof {
                        assert(self@[i as int].1[0] == self.entries@[i as int].1.deep_view()[0]);
                    }
                    return Some(&self.entries[i].1[0]);
                } else {
                    return None;
                }
            }
            i += 1;
        }
        proof {
            lemma_mm_index_of_ci(self@, name@);
        }
        None
    }
}

/// First value under a name up to ASCII case: what a single-valued header
/// lookup returns.
pub open spec fn mm_first_ci(m: MultiMapView, name: Seq<char>) -> Option<Seq<char>> {
    let i = mm_index_of_ci(m, name);
    if i >= 0 && m[i].1.len() > 0 {
        Some(m[i].1[0])
    } else {
        None
    }
}

/// A record of one HTTP request made to the server.
#[derive(PartialEq, Debug, Eq)]
pub struct Request {
    pub content_length: Option<u64>,
    pub content_type: Option<String>,
    pub time: i64,
    pub method: String,
    pub path: String,
    pub body: Option<String>,
    pub headers: MultiMap,
    pub query_string: MultiMap,
}

/// Summary of a bin of requests.
#[derive(PartialEq, Debug, Eq)]
pub struct BinSummary {
    pub id: Id,
    pub request_count: usize,
}

} // verus!
