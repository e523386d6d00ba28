use vstd::prelude::*;

verus! {

// ---------------------------------------------------------------------------
// Whitespace trimming
// ---------------------------------------------------------------------------

/// The whitespace characters stripped from both ends of a device name
/// attribute (the Unicode white-space code points).
pub open spec fn is_space(c: char) -> bool {
    c == ' ' || c == '\t' || c == '\n' || c == '\r' || c == '\u{b}' || c == '\u{c}'
        || c == '\u{85}' || c == '\u{a0}' || c == '\u{1680}' || c == '\u{2000}'
        || c == '\u{2001}' || c == '\u{2002}' || c == '\u{2003}' || c == '\u{2004}'
        || c == '\u{2005}' || c == '\u{2006}' || c == '\u{2007}' || c == '\u{2008}'
        || c == '\u{2009}' || c == '\u{200a}' || c == '\u{2028}' || c == '\u{2029}'
        || c == '\u{202f}' || c == '\u{205f}' || c == '\u{3000}'
}

/// Whether `c` is one of the whitespace characters trimming strips.
pub fn is_space_char(c: char) -> (b: bool)
    ensures
        b == is_space(c),
{
    c == ' ' || c == '\t' || c == '\n' || c == '\r' || c == '\u{b}' || c == '\u{c}'
        || c == '\u{85}' || c == '\u{a0}' || c == '\u{1680}' || c == '\u{2000}'
        || c == '\u{2001}' || c == '\u{2002}' || c == '\u{2003}' || c == '\u{2004}'
        || c == '\u{2005}' || c == '\u{2006}' || c == '\u{2007}' || c == '\u{2008}'
        || c == '\u{2009}' || c == '\u{200a}' || c == '\u{2028}' || c == '\u{2029}'
        || c == '\u{202f}' || c == '\u{205f}' || c == '\u{3000}'
}

/// The string with its leading whitespace removed.
pub open spec fn trim_start_spec(s: Seq<char>) -> Seq<char>
    decreases s.len(),
{
    if s.len() == 0 {
        s
    } else if is_space(s[0]) {
        trim_start_spec(s.drop_first())
    } else {
        s
    }
}

/// The string with its trailing whitespace removed.
pub open spec fn trim_end_spec(s: Seq<char>) -> Seq<char>
    decreases s.len(),
{
    if s.len() == 0 {
        s
    } else if is_space(s.last()) {
        trim_end_spec(s.drop_last())
    } else {
        s
    }
}

/// The string with surrounding whitespace removed from both ends.
pub open spec fn trim_spec(s: Seq<char>) -> Seq<char> {
    trim_end_spec(trim_start_spec(s))
}

proof fn lemma_trim_start(s: Seq<char>, i: int)
    requires
        0 <= i <= s.len(),
        forall|k: int| 0 <= k < i ==> is_space(#[trigger] s[k]),
        i < s.len() ==> !is_space(s[i]),
    ensures
        trim_start_spec(s) =~= s.subrange(i, s.len() as int),
    decreases i,
{
    if i == 0 {
    } else {
        assert(is_space(s[0]));
        lemma_trim_start(s.drop_first(), i - 1);
    }
}

proof fn lemma_trim_end(s: Seq<char>, j: int)
    requires
        0 <= j <= s.len(),
        forall|k: int| j <= k < s.len() ==> is_space(#[trigger] s[k]),
        j > 0 ==> !is_space(s[j - 1]),
    ensures
        trim_end_spec(s) =~= s.subrange(0, j),
    decreases s.len() - j,
{
    if j == s.len() {
        if s.len() == 0 {
        } else if is_space(s.last()) {
            lemma_trim_end(s.drop_last(), j - 1);
        }
    } else {
        assert(is_space(s.last()));
        lemma_trim_end(s.drop_last(), j);
    }
}

/// Removes leading and trailing whitespace, as an owned string.
pub fn trim_str(s: &str) -> (t: String)
    ensures
        t@ == trim_spec(s@),
{
    let n = s.unicode_len();
    let mut start: usize = 0;
    while start < n && is_space_char(s.get_char(start))
        invariant
            n == s@.len(),
            start <= n,
            forall|k: int| 0 <= k < start ==> is_space(#[trigger] s@[k]),
        decreases n - start,
    {
        start = start + 1;
    }
    let mut end: usize = n;
    while end > start && is_space_char(s.get_char(end - 1))
        invariant
            n == s@.len(),
            start <= end <= n,
            forall|k: int| end <= k < n ==> is_space(#[trigger] s@[k]),
        decreases end,
    {
        end = end - 1;
    }
    let t = s.substring_char(start, end);
    proof {
        lemma_trim_start(s@, start as int);
        let stripped = s@.subrange(start as int, n as int);
        lemma_trim_end(stripped, end - start);
        assert(stripped.subrange(0, end - start) =~= s@.subrange(start as int, end as int));
    }
    String::from_str(t)
}

// ---------------------------------------------------------------------------
// Device-node path derivation
// ---------------------------------------------------------------------------

/// The last path segment: everything after the final `/`, or the whole
/// string when it holds no `/`.
pub open spec fn last_segment_spec(s: Seq<char>) -> Seq<char>
    decreases s.len(),
{
    if s.len() == 0 {
        s
    } else if s.last() == '/' {
        Seq::empty()
    } else {
        last_segment_spec(s.drop_last()).push(s.last())
    }
}

proof fn lemma_last_segment(s: Seq<char>, j: int)
    requires
        0 <= j <= s.len(),
        j > 0 ==> s[j - 1] == '/',
        forall|k: int| j <= k < s.len() ==> #[trigger] s[k] != '/',
    ensures
        last_segment_spec(s) =~= s.subrange(j, s.len() as int),
    decreases s.len(),
{
    if j == s.len() {
        if s.len() == 0 {
        } else {
            assert(s.last() == '/');
        }
    } else {
        assert(s.last() != '/');
        lemma_last_segment(s.drop_last(), j);
        assert(s.drop_last().subrange(j, s.len() - 1).push(s.last())
            =~= s.subrange(j, s.len() as int));
    }
}

/// Joins the last segment of a device-class entry path under the fixed
/// device-node root, e.g. `.../fb1` becomes `/dev/fb1`.
pub fn device_node_path(entry_path: &str) -> (path: String)
    ensures
        path@ == "/dev/"@ + last_segment_spec(entry_path@),
{
    let n = entry_path.unicode_len();
    let mut cut: usize = n;
    while cut > 0 && entry_path.get_char(cut - 1) != '/'
        invariant
            n == entry_path@.len(),
            cut <= n,
            forall|k: int| cut <= k < n ==> #[trigger] entry_path@[k] != '/',
        decreases cut,
    {
        cut = cut - 1;
    }
    let seg = entry_path.substring_char(cut, n);
    proof {
        lemma_last_segment(entry_path@, cut as int);
    }
    String::from_str("/dev/").concat(seg)
}

// ---------------------------------------------------------------------------
// Candidate scan
// ---------------------------------------------------------------------------

/// One framebuffer-class entry seen during enumeration: the entry's path and
/// the contents of its `name` attribute, or `None` when the attribute could
/// not be read (such a candidate is skipped).
pub struct Candidate {
    pub entry_path: String,
    pub name_attr: Option<String>,
}

/// One step of the enumeration: either a candidate entry, or a failure of
/// the enumeration itself at that point.
pub enum ScanEntry {
    Entry(Candidate),
    Failure,
}

/// The outcome of a scan: the derived device-node path of the first match,
/// legitimate absence, or an enumeration failure before any match.
pub enum LocateOutcome {
    Found(String),
    NotFound,
    EnumerationFailure,
}

/// The hardware identifier the matrix device reports in its name attribute.
pub open spec fn matrix_name() -> Seq<char> {
    "RPi-Sense FB"@
}

/// Whether a scan entry is a candidate whose trimmed name attribute equals
/// the hardware identifier exactly.
pub open spec fn entry_matches(e: ScanEntry) -> bool {
    match e {
        ScanEntry::Entry(c) => match c.name_attr {
            Some(name) => trim_spec(name@) == matrix_name(),
            None => false,
        },
        ScanEntry::Failure => false,
    }
}

/// Whether the scan stops at this entry: on the first match, or on an
/// enumeration failure.
pub open spec fn entry_stops(e: ScanEntry) -> bool {
    e is Failure || entry_matches(e)
}

/// No entry before position `i` stops the scan.
pub open spec fn scan_reaches(entries: Seq<ScanEntry>, i: int) -> bool {
    forall|k: int| 0 <= k < i ==> !entry_stops(#[trigger] entries[k])
}

/// The entry path of a candidate entry (empty for a failure entry).
pub open spec fn entry_path_of(e: ScanEntry) -> Seq<char> {
    match e {
        ScanEntry::Entry(c) => c.entry_path@,
        ScanEntry::Failure => Seq::empty(),
    }
}

/// Scans the enumerated entries in order for the matrix device.
///
/// The first entry whose trimmed name attribute equals the hardware
/// identifier wins, and its device-node path is derived from its entry
/// path; later entries are not considered. Candidates whose name attribute
/// was unreadable are skipped silently. An enumeration failure seen before
/// any match stops the scan. When every entry is a non-matching candidate,
/// the result is `NotFound`: legitimate absence, not an error.
pub fn locate(entries: &Vec<ScanEntry>) -> (outcome: LocateOutcome)
    ensures
        match outcome {
            LocateOutcome::Found(path) => exists|i: int|
                0 <= i < entries@.len() && scan_reaches(entries@, i)
                    && entry_matches(#[trigger] entries@[i])
                    && path@ == "/dev/"@ + last_segment_spec(entry_path_of(entries@[i])),
            LocateOutcome::EnumerationFailure => exists|i: int|
                0 <= i < entries@.len() && scan_reaches(entries@, i)
                    && (#[trigger] entries@[i]) is Failure,
            LocateOutcome::NotFound => scan_reaches(entries@, entries@.len() as int),
        },
{
    let target = String::from_str("RPi-Sense FB");
    let n = entries.len();
    let mut idx: usize = 0;
    while idx < n
        invariant
            n == entries@.len(),
            idx <= n,
            target@ == matrix_name(),
            scan_reaches(entries@, idx as int),
        decreases n - idx,
    {
        match &entries[idx] {
            ScanEntry::Failure => {
                return LocateOutcome::EnumerationFailure;
            },
            ScanEntry::Entry(candidate) => {
                match &candidate.name_attr {
                    Some(name) => {
                        let trimmed = trim_str(name.as_str());
                        if trimmed == target {
                            let path = device_node_path(candidate.entry_path.as_str());
                            proof {
                                assert(entry_matches(entries@[idx as int]));
                            }
                            return LocateOutcome::Found(path);
                        }
                        proof {
                            assert(!entry_matches(entries@[idx as int]));
                        }
                    },
                    None => {
                        proof {
                            assert(!entry_matches(entries@[idx as int]));
                        }
                    },
                }
            },
        }
        idx = idx + 1;
    }
    LocateOutcome::NotFound
}

} // verus!
