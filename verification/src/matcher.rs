use vstd::prelude::*;

verus! {

// The regex engine is delegated: the library treats a compiled pattern as
// an opaque capability offering compile, match iteration, and group-name
// introspection.  The names below stand for its results, which depend on
// the pattern text and the haystack bytes alone.

#[verifier::external_type_specification]
#[verifier::external_body]
pub struct ExRegex(regex::bytes::Regex);

/// Whether the pattern text compiles.
pub uninterp spec fn pattern_ok(p: Seq<char>) -> bool;

/// The ordered capture-group names of a compiled pattern: one entry per
/// group, index 0 first; a `None` entry is an unnamed (positional) group.
pub uninterp spec fn group_names_of(p: Seq<char>) -> Seq<Option<Seq<u8>>>;

/// The successive non-overlapping match spans of a compiled pattern over a
/// haystack, in order, as half-open byte ranges.
pub uninterp spec fn match_spans_of(p: Seq<char>, hay: Seq<u8>) -> Seq<(usize, usize)>;

/// For each match, in the same order as `match_spans_of`, the per-group
/// half-open byte ranges; `None` marks a group that did not participate.
pub uninterp spec fn capture_rows_of(p: Seq<char>, hay: Seq<u8>) -> Seq<Seq<Option<(usize, usize)>>>;

/// Match spans are well formed for a haystack of length `len`: each is a
/// half-open in-bounds range, starts strictly increase, and consecutive
/// spans do not overlap.
pub open spec fn spans_wf(spans: Seq<(usize, usize)>, len: nat) -> bool {
    &&& forall|i: int| 0 <= i < spans.len() ==> (#[trigger] spans[i]).0 <= spans[i].1 <= len
    &&& forall|i: int| 0 <= i < spans.len() - 1 ==> (#[trigger] spans[i]).1 <= spans[i + 1].0
    &&& forall|i: int| 0 <= i < spans.len() - 1 ==> (#[trigger] spans[i]).0 < spans[i + 1].0
}

/// A capture row is well formed: group 0 is present, and every
/// participating group is an in-bounds half-open range.
pub open spec fn row_wf(row: Seq<Option<(usize, usize)>>, len: nat) -> bool {
    &&& row.len() >= 1
    &&& row[0] is Some
    &&& forall|j: int| 0 <= j < row.len() ==> ((#[trigger] row[j]) matches Some(s) ==> s.0 <= s.1 <= len)
}

/// The whole-match span of a capture row: its group 0.
pub open spec fn whole_span(row: Seq<Option<(usize, usize)>>) -> (usize, usize) {
    row[0].unwrap()
}

/// Capture rows are well formed: each row is, and the whole-match spans
/// (group 0) of consecutive rows do not overlap and move strictly right.
pub open spec fn rows_wf(rows: Seq<Seq<Option<(usize, usize)>>>, len: nat) -> bool {
    &&& forall|i: int| 0 <= i < rows.len() ==> row_wf(#[trigger] rows[i], len)
    &&& forall|i: int| 0 <= i < rows.len() - 1 ==> whole_span(#[trigger] rows[i]).1 <= whole_span(rows[i + 1]).0
    &&& forall|i: int| 0 <= i < rows.len() - 1 ==> whole_span(#[trigger] rows[i]).0 < whole_span(rows[i + 1]).0
}

/// The view of a stored group-name table.
pub open spec fn names_view(names: Seq<Option<Vec<u8>>>) -> Seq<Option<Seq<u8>>> {
    names.map_values(|o: Option<Vec<u8>>| match o {
        Some(v) => Some(v@),
        None => None,
    })
}

/// The view of a stored capture-row table.
pub open spec fn rows_view(rows: Seq<Vec<Option<(usize, usize)>>>) -> Seq<Seq<Option<(usize, usize)>>> {
    rows.map_values(|r: Vec<Option<(usize, usize)>>| r@)
}

/// An immutable compiled matcher: the delegated engine's compiled pattern
/// together with its capture-group names.  Values exist only through
/// [`Matcher::compile`], which ties the opaque engine value to the pattern
/// text it was compiled from; the trusted contracts below rely on that tie.
pub struct Matcher {
    re: regex::bytes::Regex,
    names: Vec<Option<Vec<u8>>>,
    source: String,
}

impl Matcher {
    /// The pattern text this matcher was compiled from.
    pub closed spec fn pattern(self) -> Seq<char> {
        self.source@
    }

    /// The stored group names equal the engine's; the pattern compiles;
    /// the name table has the implicit unnamed whole-match group first.
    pub closed spec fn wf(self) -> bool {
        &&& pattern_ok(self.source@)
        &&& names_view(self.names@) == group_names_of(self.source@)
        &&& group_names_of(self.source@).len() >= 1
        &&& group_names_of(self.source@)[0] is None
    }

    /// Relies on `regex::bytes::Regex::new` (a pattern either compiles or
    /// yields a descriptive error) and `Regex::capture_names` (the group
    /// names in index order; the first entry is the implicit whole-match
    /// group and is always unnamed, so there is always at least one).
    #[verifier::external_body]
    pub fn compile(text: &str) -> (r: Result<Matcher, String>)
        ensures
            r is Ok <==> pattern_ok(text@),
            r matches Ok(m) ==> m.pattern() == text@ && m.wf(),
    {
        match regex::bytes::Regex::new(text) {
            Ok(re) => {
                let names = re.capture_names().map(|o| o.map(|s| s.as_bytes().to_vec())).collect();
                Ok(Matcher { re, names, source: text.to_owned() })
            }
            Err(e) => Err(format!("{}", e)),
        }
    }

    /// The group-name table: one entry per capture group, index 0 first.
    pub fn group_names(&self) -> (r: &Vec<Option<Vec<u8>>>)
        requires
            self.wf(),
        ensures
            names_view(r@) == group_names_of(self.pattern()),
    {
        &self.names
    }

    /// Relies on `regex::bytes::Regex::find_iter`: successive
    /// non-overlapping matches in the haystack, left to right, each with
    /// `start <= end <= haystack.len()`.
    #[verifier::external_body]
    pub fn find_spans(&self, hay: &[u8]) -> (r: Vec<(usize, usize)>)
        ensures
            r@ == match_spans_of(self.pattern(), hay@),
            spans_wf(r@, hay@.len()),
    {
        self.re.find_iter(hay).map(|m| (m.start(), m.end())).collect()
    }

    /// Relies on `regex::bytes::Regex::captures_iter`: the same matches as
    /// `find_iter`, each carrying one entry per capture group; group 0 is
    /// the overall match and is always present, and every participating
    /// group is an in-bounds range with `start <= end`.
    #[verifier::external_body]
    pub fn capture_rows(&self, hay: &[u8]) -> (r: Vec<Vec<Option<(usize, usize)>>>)
        ensures
            rows_view(r@) == capture_rows_of(self.pattern(), hay@),
            r@.len() == match_spans_of(self.pattern(), hay@).len(),
            forall|i: int| 0 <= i < r@.len() ==> (#[trigger] r@[i])@.len() == group_names_of(self.pattern()).len(),
            forall|i: int| 0 <= i < r@.len() ==> (#[trigger] r@[i])@[0] == Some(match_spans_of(self.pattern(), hay@)[i]),
            rows_wf(rows_view(r@), hay@.len()),
    {
        let mut rows = Vec::new();
        for c in self.re.captures_iter(hay) {
            let mut row = Vec::new();
            for g in 0..c.len() {
                row.push(c.get(g).map(|m| (m.start(), m.end())));
            }
            rows.push(row);
        }
        rows
    }
}

} // verus!
