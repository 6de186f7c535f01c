//! Recognition of chapter headings.
//!
//! A fixed, ordered table of regular expressions is tried on each trimmed
//! line; the first one that matches decides the heading's title.
use vstd::prelude::*;
use vstd::string::StringExecFns;
use crate::text::{trim, trim_of};

verus! {

/// The number of heading patterns.
pub const PATTERN_COUNT: usize = 20;

/// The heading patterns, in priority order.
pub open spec fn pattern_text(k: int) -> Seq<char> {
    if k == 0 {
        r"(?i)^\s*chapter\s+(\d+|\w+)\s*$"@
    } else if k == 1 {
        r"(?i)^\s*chapter\s+(\d+|\w+)\s*-\s*(.+)$"@
    } else if k == 2 {
        r"(?i)^\s*chapter\s+(\d+|\w+)\s*:\s*(.+)$"@
    } else if k == 3 {
        r"(?i)^\s*chap\.?\s*(\d+|\w+)\s*$"@
    } else if k == 4 {
        r"(?i)^\s*section\s+(\d+|\w+)\s*$"@
    } else if k == 5 {
        r"(?i)^\s*part\s+(\d+|\w+)\s*$"@
    } else if k == 6 {
        r"^\s*#\s+([^#].*)$"@
    } else if k == 7 {
        r"^\s*##\s+([^#].*)$"@
    } else if k == 8 {
        r"^\s*\d+\.\s+([^.].*)$"@
    } else if k == 9 {
        r"^\s*\d+\.\d+\s+(.+)$"@
    } else if k == 10 {
        r"^第\s*(\d+)\s*章\s*(.*)$"@
    } else if k == 11 {
        r"^第\s*([一二三四五六七八九十百千万]+)\s*章\s*(.*)$"@
    } else if k == 12 {
        r"^第\s*(\d+)\s*节\s*(.*)$"@
    } else if k == 13 {
        r"^第\s*([一二三四五六七八九十百千万]+)\s*节\s*(.*)$"@
    } else if k == 14 {
        r"^第\s*(\d+)\s*回\s*(.*)$"@
    } else if k == 15 {
        r"^第\s*([一二三四五六七八九十百千万]+)\s*回\s*(.*)$"@
    } else if k == 16 {
        r"^第\s*(\d+)\s*话\s*(.*)$"@
    } else if k == 17 {
        r"^第\s*([一二三四五六七八九十百千万]+)\s*话\s*(.*)$"@
    } else if k == 18 {
        r"^Chapter\s*第(\d+)\s*(.*)$"@
    } else {
        r"^\s*([^\r\n]{1,50})\s*第\s*(\d+)\s*章\s*$"@
    }
}

fn pattern_at(k: usize) -> (r: &'static str)
    requires
        k < PATTERN_COUNT,
    ensures
        r@ == pattern_text(k as int),
{
    if k == 0 {
        r"(?i)^\s*chapter\s+(\d+|\w+)\s*$"
    } else if k == 1 {
        r"(?i)^\s*chapter\s+(\d+|\w+)\s*-\s*(.+)$"
    } else if k == 2 {
        r"(?i)^\s*chapter\s+(\d+|\w+)\s*:\s*(.+)$"
    } else if k == 3 {
        r"(?i)^\s*chap\.?\s*(\d+|\w+)\s*$"
    } else if k == 4 {
        r"(?i)^\s*section\s+(\d+|\w+)\s*$"
    } else if k == 5 {
        r"(?i)^\s*part\s+(\d+|\w+)\s*$"
    } else if k == 6 {
        r"^\s*#\s+([^#].*)$"
    } else if k == 7 {
        r"^\s*##\s+([^#].*)$"
    } else if k == 8 {
        r"^\s*\d+\.\s+([^.].*)$"
    } else if k == 9 {
        r"^\s*\d+\.\d+\s+(.+)$"
    } else if k == 10 {
        r"^第\s*(\d+)\s*章\s*(.*)$"
    } else if k == 11 {
        r"^第\s*([一二三四五六七八九十百千万]+)\s*章\s*(.*)$"
    } else if k == 12 {
        r"^第\s*(\d+)\s*节\s*(.*)$"
    } else if k == 13 {
        r"^第\s*([一二三四五六七八九十百千万]+)\s*节\s*(.*)$"
    } else if k == 14 {
        r"^第\s*(\d+)\s*回\s*(.*)$"
    } else if k == 15 {
        r"^第\s*([一二三四五六七八九十百千万]+)\s*回\s*(.*)$"
    } else if k == 16 {
        r"^第\s*(\d+)\s*话\s*(.*)$"
    } else if k == 17 {
        r"^第\s*([一二三四五六七八九十百千万]+)\s*话\s*(.*)$"
    } else if k == 18 {
        r"^Chapter\s*第(\d+)\s*(.*)$"
    } else {
        r"^\s*([^\r\n]{1,50})\s*第\s*(\d+)\s*章\s*$"
    }
}

/// `regex::Regex`, a compiled pattern, carried opaquely.
#[verifier::external_type_specification]
#[verifier::external_body]
pub struct ExRegex(regex::Regex);

/// Whether `regex::Regex::new` accepts the pattern.
pub uninterp spec fn regex_compiles(pattern: Seq<char>) -> bool;

/// The capture groups, group 0 first, that `regex::Regex::captures` finds
/// for the pattern in the haystack; `None` where it does not match.
pub uninterp spec fn regex_captures(pattern: Seq<char>, haystack: Seq<char>) -> Option<Seq<Option<Seq<char>>>>;

/// A compiled pattern together with its source text.
pub struct Pattern {
    source: String,
    regex: regex::Regex,
}

impl Pattern {
    pub closed spec fn source(&self) -> Seq<char> {
        self.source@
    }
}

pub open spec fn opt_view(o: Option<String>) -> Option<Seq<char>> {
    match o {
        Some(s) => Some(s@),
        None => None,
    }
}

pub open spec fn groups_view(r: Option<Vec<Option<String>>>) -> Option<Seq<Option<Seq<char>>>> {
    match r {
        Some(v) => Some(v@.map_values(|o: Option<String>| opt_view(o))),
        None => None,
    }
}

/// Relies on `regex::Regex::new`: compiles the pattern, or fails.
#[verifier::external_body]
fn compile(source: &str) -> (r: Option<Pattern>)
    ensures
        r.is_some() == regex_compiles(source@),
        r matches Some(p) ==> p.source() == source@,
{
    match regex::Regex::new(source) {
        Ok(regex) => Some(Pattern { source: source.to_string(), regex }),
        Err(_) => None,
    }
}

/// Relies on `regex::Regex::captures`: the groups of the leftmost match,
/// each as the text it matched.
#[verifier::external_body]
fn captures(p: &Pattern, haystack: &str) -> (r: Option<Vec<Option<String>>>)
    ensures
        groups_view(r) == regex_captures(p.source(), haystack@),
{
    p.regex.captures(haystack).map(
        |c| c.iter().map(|m| m.map(|m| m.as_str().to_string())).collect(),
    )
}

/// The title that a heading line yields, given the groups of the pattern
/// that matched its trimmed text `line`.
///
/// A non-blank second group is the title; otherwise a first group gives
/// `"Chapter "` followed by that token; otherwise the trimmed line itself.
pub open spec fn derive_title(groups: Seq<Option<Seq<char>>>, line: Seq<char>) -> Seq<char> {
    if groups.len() > 1 {
        if groups.len() > 2 && groups[2] is Some && trim_of(groups[2].unwrap()).len() > 0 {
            trim_of(groups[2].unwrap())
        } else if groups[1] is Some {
            "Chapter "@ + trim_of(groups[1].unwrap())
        } else {
            line
        }
    } else {
        line
    }
}

/// The title from the first pattern, starting at index `k`, that compiles
/// and matches the trimmed line `line`.
pub open spec fn first_match(line: Seq<char>, k: int) -> Option<Seq<char>>
    decreases PATTERN_COUNT - k,
{
    if k < 0 || k >= PATTERN_COUNT {
        None
    } else if regex_compiles(pattern_text(k)) && regex_captures(pattern_text(k), line) is Some {
        Some(derive_title(regex_captures(pattern_text(k), line).unwrap(), line))
    } else {
        first_match(line, k + 1)
    }
}

/// Where no pattern compiles, no line is a heading.
pub proof fn lemma_unusable_matches_nothing(line: Seq<char>, k: int)
    requires
        forall|j: int| 0 <= j < PATTERN_COUNT ==> !regex_compiles(#[trigger] pattern_text(j)),
    ensures
        first_match(line, k) is None,
    decreases PATTERN_COUNT - k,
{
    if 0 <= k < PATTERN_COUNT {
        lemma_unusable_matches_nothing(line, k + 1);
    }
}

/// The heading title of a raw line, if the line is a chapter heading.
pub open spec fn line_title(line: Seq<char>) -> Option<Seq<char>> {
    first_match(trim_of(line), 0)
}

fn title_from_groups(groups: &Vec<Option<String>>, line: &String) -> (r: String)
    ensures
        r@ == derive_title(groups@.map_values(|o: Option<String>| opt_view(o)), line@),
{
    let ghost gv = groups@.map_values(|o: Option<String>| opt_view(o));
    if groups.len() > 1 {
        if groups.len() > 2 {
            if let Some(t) = &groups[2] {
                assert(gv[2] == Some(t@));
                let tt = trim(t.as_str());
                if !tt.as_str().is_empty() {
                    return tt;
                }
            }
        }
        if let Some(n) = &groups[1] {
            assert(gv[1] == Some(n@));
            let nt = trim(n.as_str());
            let mut s = String::from_str("Chapter ");
            s.append(nt.as_str());
            s
        } else {
            line.clone()
        }
    } else {
        line.clone()
    }
}

/// The compiled heading patterns.
pub struct MarkerMatcher {
    patterns: Vec<Option<Pattern>>,
}

impl MarkerMatcher {
    /// Entry `k` holds pattern `k` exactly when that pattern compiles.
    pub closed spec fn wf(&self) -> bool {
        &&& self.patterns@.len() == PATTERN_COUNT
        &&& forall|k: int|
            0 <= k < PATTERN_COUNT ==> (#[trigger] self.patterns@[k]).is_some() == regex_compiles(
                pattern_text(k),
            ) && (self.patterns@[k] matches Some(p) ==> p.source() == pattern_text(k))
    }

    /// Compiles every heading pattern; those that fail are left out.
    pub fn new() -> (r: MarkerMatcher)
        ensures
            r.wf(),
    {
        let mut patterns: Vec<Option<Pattern>> = Vec::new();
        let mut k: usize = 0;
        while k < PATTERN_COUNT
            invariant
                k <= PATTERN_COUNT,
                patterns@.len() == k,
                forall|j: int|
                    0 <= j < k ==> (#[trigger] patterns@[j]).is_some() == regex_compiles(
                        pattern_text(j),
                    ) && (patterns@[j] matches Some(p) ==> p.source() == pattern_text(j)),
            decreases PATTERN_COUNT - k,
        {
            patterns.push(compile(pattern_at(k)));
            k = k + 1;
        }
        MarkerMatcher { patterns }
    }

    /// Whether no pattern compiled.
    pub fn is_unusable(&self) -> (r: bool)
        requires
            self.wf(),
        ensures
            r == (forall|k: int| 0 <= k < PATTERN_COUNT ==> !regex_compiles(#[trigger] pattern_text(k))),
    {
        let mut k: usize = 0;
        while k < PATTERN_COUNT
            invariant
                self.wf(),
                k <= PATTERN_COUNT,
                forall|j: int| 0 <= j < k ==> !regex_compiles(#[trigger] pattern_text(j)),
            decreases PATTERN_COUNT - k,
        {
            if self.patterns[k].is_some() {
                assert(regex_compiles(pattern_text(k as int)));
                return false;
            }
            k = k + 1;
        }
        true
    }

    /// The title of `line` if it is a chapter heading: the first pattern in
    /// priority order that matches the trimmed line decides it.
    pub fn title_of(&self, line: &str) -> (r: Option<String>)
        requires
            self.wf(),
        ensures
            opt_view(r) == line_title(line@),
    {
        let trimmed = trim(line);
        let mut k: usize = 0;
        while k < PATTERN_COUNT
            invariant
                self.wf(),
                k <= PATTERN_COUNT,
                trimmed@ == trim_of(line@),
                first_match(trimmed@, 0) == first_match(trimmed@, k as int),
            decreases PATTERN_COUNT - k,
        {
            if let Some(p) = &self.patterns[k] {
                let found = captures(p, trimmed.as_str());
                if let Some(groups) = found {
                    return Some(title_from_groups(&groups, &trimmed));
                }
            }
            k = k + 1;
        }
        None
    }
}

} // verus!
