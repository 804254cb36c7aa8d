//! Generation-history reconstruction: parsing one change line into a typed
//! change record, and folding a whole history dump into an ordered mapping
//! from generation number to its list of changes.

use vstd::prelude::*;
use crate::error::Error;
use crate::normalize::{ansi_stripped, normalize_line};
use crate::strutil::{
    all_digits, digits_val, find_spec, find_str, lines_spec, parse_usize, split_lines,
    split_tokens, str_eq, tokens_spec, trim_spec, trim_str,
};

verus! {

/// The unset sentinel: "no version / not present".
pub const UNSET_VERSION: &'static str = "\u{2205}";

/// The epsilon sentinel: "unspecified version, resolves to latest".
pub const EPSILON_VERSION: &'static str = "\u{3b5}";

/// What a change line did to a package.
#[derive(Debug, Clone, Copy, PartialEq, Eq, Structural)]
pub enum HistoryActions {
    Added,
    Removed,
    Upgraded,
    NoChange,
}

/// One inferred package mutation within a generation.
#[derive(Debug)]
pub struct HistoryPackage {
    pub action: HistoryActions,
    pub previous_version: Option<String>,
    pub current_version: Option<String>,
    pub flake_url: String,
    pub flake_attribute: String,
}

/// The mathematical value of a change record.
#[verifier::ext_equal]
pub ghost struct ChangeView {
    pub action: HistoryActions,
    pub previous: Option<Seq<char>>,
    pub current: Option<Seq<char>>,
    pub url: Seq<char>,
    pub attr: Seq<char>,
}

impl DeepView for HistoryPackage {
    type V = ChangeView;

    open spec fn deep_view(&self) -> ChangeView {
        ChangeView {
            action: self.action,
            previous: self.previous_version.deep_view(),
            current: self.current_version.deep_view(),
            url: self.flake_url@,
            attr: self.flake_attribute@,
        }
    }
}

// ---------------------------------------------------------------------------
// The change-line grammar, as spec functions over the normalized line.
// A line is `<url>#<attr>: <prev> -> <curr[,alt,...]>`; the source descriptor
// before the first `": "` may be missing or empty.
// ---------------------------------------------------------------------------

/// The source descriptor: what stands before the first `": "`, empty when
/// there is none.
pub open spec fn source_part(line: Seq<char>) -> Seq<char> {
    match find_spec(line, ": "@) {
        Some(i) => line.take(i),
        None => Seq::empty(),
    }
}

/// The transition descriptor: what follows the first `": "`, or the whole
/// line when there is none.
pub open spec fn transition_part(line: Seq<char>) -> Seq<char> {
    match find_spec(line, ": "@) {
        Some(i) => line.skip(i + 2),
        None => line,
    }
}

/// A line carries a version transition exactly when its transition
/// descriptor contains the `->` marker.
pub open spec fn is_change_line(line: Seq<char>) -> bool {
    find_spec(transition_part(line), "->"@) is Some
}

/// The flake URL: the source descriptor up to the first `#`.
pub open spec fn url_part(line: Seq<char>) -> Seq<char> {
    let src = source_part(line);
    match find_spec(src, "#"@) {
        Some(i) => src.take(i),
        None => src,
    }
}

/// The flake attribute: the source descriptor after the first `#`, empty
/// when there is no `#`.
pub open spec fn attr_part(line: Seq<char>) -> Seq<char> {
    let src = source_part(line);
    match find_spec(src, "#"@) {
        Some(i) => src.skip(i + 1),
        None => Seq::empty(),
    }
}

/// The trimmed text left of the first `->` of the transition descriptor.
pub open spec fn prev_text(line: Seq<char>) -> Seq<char> {
    let tr = transition_part(line);
    trim_spec(tr.take(find_spec(tr, "->"@).unwrap()))
}

/// The trimmed text right of the first `->` of the transition descriptor.
pub open spec fn curr_text(line: Seq<char>) -> Seq<char> {
    let tr = transition_part(line);
    trim_spec(tr.skip(find_spec(tr, "->"@).unwrap() + 2))
}

/// The previous version: the left text taken verbatim, none when it is the
/// unset sentinel.
pub open spec fn prev_version_spec(line: Seq<char>) -> Option<Seq<char>> {
    if prev_text(line) == UNSET_VERSION@ {
        None
    } else {
        Some(prev_text(line))
    }
}

/// The first comma-separated candidate of the current-version text; later
/// candidates are dropped by design.
pub open spec fn first_candidate(s: Seq<char>) -> Seq<char> {
    match find_spec(s, ","@) {
        Some(i) => s.take(i),
        None => s,
    }
}

/// The current version: none for the unset sentinel; the literal `latest`
/// for the epsilon sentinel; otherwise the first candidate, trimmed.
pub open spec fn curr_version_spec(line: Seq<char>) -> Option<Seq<char>> {
    if curr_text(line) == UNSET_VERSION@ {
        None
    } else {
        let cand = first_candidate(curr_text(line));
        if cand == EPSILON_VERSION@ {
            Some("latest"@)
        } else {
            Some(trim_spec(cand))
        }
    }
}

/// The action a change line describes.
pub open spec fn action_spec(line: Seq<char>) -> HistoryActions {
    if !is_change_line(line) {
        HistoryActions::NoChange
    } else if curr_text(line) == UNSET_VERSION@ {
        HistoryActions::Removed
    } else if prev_version_spec(line) is Some {
        HistoryActions::Upgraded
    } else {
        HistoryActions::Added
    }
}

/// The whole record a change line describes; lines without a transition
/// marker yield the empty record with action `None`.
pub open spec fn change_spec(line: Seq<char>) -> ChangeView {
    if !is_change_line(line) {
        ChangeView {
            action: HistoryActions::NoChange,
            previous: None,
            current: None,
            url: Seq::empty(),
            attr: Seq::empty(),
        }
    } else {
        ChangeView {
            action: action_spec(line),
            previous: prev_version_spec(line),
            current: curr_version_spec(line),
            url: url_part(line),
            attr: attr_part(line),
        }
    }
}

impl HistoryPackage {
    /// Parses one normalized change line into a change record, exactly as
    /// `change_spec` describes it.
    pub fn from_line(line: &str) -> (r: HistoryPackage)
        ensures
            r.deep_view() == change_spec(line@),
    {
        proof {
            reveal_strlit(": ");
            reveal_strlit("->");
            reveal_strlit("#");
            reveal_strlit(",");
        }
        // locate the transition descriptor
        let sep = find_str(line, ": ");
        let n = line.unicode_len();
        let (source, transition) = match sep {
            Some(i) => {
                proof {
                    assert(": "@.len() == 2);
                    assert(line@.take(i as int) =~= line@.subrange(0, i as int));
                    assert(line@.skip(i + 2) =~= line@.subrange(i + 2, n as int));
                }
                (line.substring_char(0, i), line.substring_char(i + 2, n))
            },
            None => {
                let e = line.substring_char(0, 0);
                proof {
                    assert(e@ =~= source_part(line@));
                }
                (e, line)
            },
        };
        proof {
            assert(source@ == source_part(line@));
            assert(transition@ == transition_part(line@));
        }
        let marker = find_str(transition, "->");
        let m = match marker {
            Some(m) => m,
            None => {
                let r = HistoryPackage {
                    action: HistoryActions::NoChange,
                    previous_version: None,
                    current_version: None,
                    flake_url: String::new(),
                    flake_attribute: String::new(),
                };
                proof {
                    assert(!is_change_line(line@));
                    assert(r.deep_view() =~= change_spec(line@));
                }
                return r;
            },
        };
        proof {
            assert(is_change_line(line@));
            assert("->"@.len() == 2);
        }
        // split the source descriptor into URL and attribute
        let sn = source.unicode_len();
        let (flake_url, flake_attribute) = match find_str(source, "#") {
            Some(h) => {
                proof {
                    assert("#"@.len() == 1);
                    assert(source@.take(h as int) =~= source@.subrange(0, h as int));
                    assert(source@.skip(h + 1) =~= source@.subrange(h + 1, sn as int));
                }
                (source.substring_char(0, h).to_owned(), source.substring_char(h + 1, sn).to_owned())
            },
            None => {
                let e = source.substring_char(0, 0);
                proof {
                    assert(e@ =~= attr_part(line@));
                }
                (source.to_owned(), e.to_owned())
            },
        };
        proof {
            assert(flake_url@ == url_part(line@));
            assert(flake_attribute@ == attr_part(line@));
        }
        // split the transition descriptor at the marker
        let tn = transition.unicode_len();
        proof {
            assert(transition@.take(m as int) =~= transition@.subrange(0, m as int));
            assert(transition@.skip(m + 2) =~= transition@.subrange(m + 2, tn as int));
        }
        let previous = trim_str(transition.substring_char(0, m));
        let current = trim_str(transition.substring_char(m + 2, tn));
        proof {
            assert(previous@ == prev_text(line@));
            assert(current@ == curr_text(line@));
        }
        let previous_version = if str_eq(previous, UNSET_VERSION) {
            None
        } else {
            Some(previous.to_owned())
        };
        if str_eq(current, UNSET_VERSION) {
            let r = HistoryPackage {
                action: HistoryActions::Removed,
                previous_version,
                current_version: None,
                flake_url,
                flake_attribute,
            };
            proof {
                assert(r.deep_view() =~= change_spec(line@));
            }
            return r;
        }
        let action = if previous_version.is_some() {
            HistoryActions::Upgraded
        } else {
            HistoryActions::Added
        };
        let candidate = match find_str(current, ",") {
            Some(c) => {
                proof {
                    assert(current@.take(c as int) =~= current@.subrange(0, c as int));
                }
                current.substring_char(0, c)
            },
            None => current,
        };
        proof {
            assert(candidate@ == first_candidate(curr_text(line@)));
        }
        let current_version = if str_eq(candidate, EPSILON_VERSION) {
            Some(String::from_str("latest"))
        } else {
            Some(trim_str(candidate).to_owned())
        };
        let r = HistoryPackage {
            action,
            previous_version,
            current_version,
            flake_url,
            flake_attribute,
        };
        proof {
            assert(r.deep_view() =~= change_spec(line@));
        }
        r
    }

    /// The action's display label; a record without an action shows an
    /// underscore.
    pub fn label(&self) -> (r: &'static str)
        ensures
            r@ == match self.action {
                HistoryActions::Added => "added"@,
                HistoryActions::Removed => "removed"@,
                HistoryActions::Upgraded => "upgraded"@,
                HistoryActions::NoChange => "_"@,
            },
    {
        match self.action {
            HistoryActions::Added => "added",
            HistoryActions::Removed => "removed",
            HistoryActions::Upgraded => "upgraded",
            HistoryActions::NoChange => "_",
        }
    }

    /// The package's source identity, written `<url>#<attribute>`.
    pub fn flake(&self) -> (r: String)
        ensures
            r@ == self.flake_url@ + "#"@ + self.flake_attribute@,
    {
        let mut s = self.flake_url.clone();
        s.append("#");
        s.append(self.flake_attribute.as_str());
        s
    }
}

/// Clones one option-of-string field.
fn clone_version(o: &Option<String>) -> (r: Option<String>)
    ensures
        r == *o,
{
    match o {
        Some(s) => Some(s.clone()),
        None => None,
    }
}

impl Clone for HistoryPackage {
    /// An exact copy, field for field.
    fn clone(&self) -> (res: Self)
        ensures
            res.deep_view() == self.deep_view(),
    {
        let res = HistoryPackage {
            action: self.action,
            previous_version: clone_version(&self.previous_version),
            current_version: clone_version(&self.current_version),
            flake_url: self.flake_url.clone(),
            flake_attribute: self.flake_attribute.clone(),
        };
        proof {
            assert(res.deep_view() =~= self.deep_view());
        }
        res
    }
}

/// A record as reconstruction stores it: it witnesses a version transition,
/// and its versions are consistent with its action.
pub open spec fn good_record(c: ChangeView) -> bool {
    &&& c.action != HistoryActions::NoChange
    &&& (c.action == HistoryActions::Removed ==> c.current is None)
    &&& (c.action == HistoryActions::Added ==> c.previous is None && c.current is Some)
    &&& (c.action == HistoryActions::Upgraded ==> c.previous is Some && c.current is Some)
}

/// Parsed records obey the action/version invariant, whatever the line was.
pub proof fn lemma_change_invariant(line: Seq<char>)
    ensures
        change_spec(line).action != HistoryActions::NoChange ==> good_record(change_spec(line)),
{
}

// ---------------------------------------------------------------------------
// The history reconstruction state machine.
// ---------------------------------------------------------------------------

/// A header line: its first whitespace token is the literal `Version`.
pub open spec fn is_header(line: Seq<char>) -> bool {
    tokens_spec(line).len() >= 1 && tokens_spec(line)[0] == "Version"@
}

/// The number text of a header line: the second token, with one trailing
/// colon removed.
pub open spec fn header_token(line: Seq<char>) -> Seq<char> {
    let t = tokens_spec(line)[1];
    if t.len() > 0 && t.last() == ':' {
        t.drop_last()
    } else {
        t
    }
}

/// The generation number of a header line, when its number text is a
/// non-empty digit string that fits a `usize`.
pub open spec fn header_number(line: Seq<char>) -> Option<int> {
    let t = header_token(line);
    if t.len() > 0 && all_digits(t) && digits_val(t) <= usize::MAX {
        Some(digits_val(t))
    } else {
        None
    }
}

/// Keys of a generation mapping, as ordered pairs, strictly ascending.
pub open spec fn sorted_keys(m: Seq<(int, Seq<ChangeView>)>) -> bool {
    forall|i: int, j: int| 0 <= i < j < m.len() ==> m[i].0 < m[j].0
}

/// Inserting (or replacing) one generation in an ordered mapping.
pub open spec fn upsert_pairs(
    m: Seq<(int, Seq<ChangeView>)>,
    k: int,
    v: Seq<ChangeView>,
) -> Seq<(int, Seq<ChangeView>)>
    decreases m.len(),
{
    if m.len() == 0 {
        seq![(k, v)]
    } else if m[0].0 < k {
        seq![m[0]] + upsert_pairs(m.drop_first(), k, v)
    } else if m[0].0 == k {
        seq![(k, v)] + m.drop_first()
    } else {
        seq![(k, v)] + m
    }
}

/// One pass of the line-oriented state machine over normalized lines:
/// `idx` is the current generation, `acc` the changes collected for it, `m`
/// the mapping built so far. `None` is the fatal outcome of a header whose
/// number does not parse.
pub open spec fn run_lines(
    lines: Seq<Seq<char>>,
    idx: int,
    acc: Seq<ChangeView>,
    m: Seq<(int, Seq<ChangeView>)>,
) -> Option<Seq<(int, Seq<ChangeView>)>>
    decreases lines.len(),
{
    if lines.len() == 0 {
        Some(
            if acc.len() > 0 {
                upsert_pairs(m, idx, acc)
            } else {
                m
            },
        )
    } else {
        let line = lines.first();
        let rest = lines.drop_first();
        if line.len() == 0 {
            run_lines(rest, idx, acc, m)
        } else if is_header(line) {
            if tokens_spec(line).len() < 2 {
                // a bare header word: processing stops here
                Some(
                    if acc.len() > 0 {
                        upsert_pairs(m, idx, acc)
                    } else {
                        m
                    },
                )
            } else {
                match header_number(line) {
                    Some(n) => run_lines(rest, n, Seq::empty(), upsert_pairs(m, idx, acc)),
                    None => None,
                }
            }
        } else if change_spec(line).action == HistoryActions::NoChange {
            run_lines(rest, idx, acc, m)
        } else {
            run_lines(rest, idx, acc.push(change_spec(line)), m)
        }
    }
}

/// The lines of a raw history dump, each normalized.
pub open spec fn normalized_lines(text: Seq<char>) -> Seq<Seq<char>> {
    lines_spec(text).map_values(|l: Seq<char>| trim_spec(ansi_stripped(l)))
}

/// What reconstruction computes from a raw history dump.
pub open spec fn history_spec(text: Seq<char>) -> Option<Seq<(int, Seq<ChangeView>)>> {
    run_lines(normalized_lines(text), 0, Seq::empty(), Seq::empty())
}

/// A non-header line that carries no version transition leaves the machine's
/// state untouched: the reconstruction excludes it.
pub proof fn lemma_non_change_line_ignored(
    line: Seq<char>,
    rest: Seq<Seq<char>>,
    idx: int,
    acc: Seq<ChangeView>,
    m: Seq<(int, Seq<ChangeView>)>,
)
    requires
        !is_change_line(line),
        !is_header(line),
    ensures
        run_lines(seq![line] + rest, idx, acc, m) == run_lines(rest, idx, acc, m),
{
    let lines = seq![line] + rest;
    assert(lines.first() == line);
    assert(lines.drop_first() =~= rest);
}

/// The view of stored rows as ordered generation pairs.
pub open spec fn rows_view(rows: Seq<(usize, Vec<HistoryPackage>)>) -> Seq<
    (int, Seq<ChangeView>),
> {
    rows.map_values(|e: (usize, Vec<HistoryPackage>)| (e.0 as int, e.1.deep_view()))
}

/// The ordered mapping from generation number to its list of changes.
pub struct HistoryVersions {
    entries: Vec<(usize, Vec<HistoryPackage>)>,
}

impl HistoryVersions {
    /// The mapping's value: generation pairs in ascending key order.
    pub closed spec fn pairs(&self) -> Seq<(int, Seq<ChangeView>)> {
        rows_view(self.entries@)
    }

    pub open spec fn wf(&self) -> bool {
        sorted_keys(self.pairs())
    }

    /// An empty mapping.
    pub fn empty() -> (r: HistoryVersions)
        ensures
            r.wf(),
            r.pairs() == Seq::<(int, Seq<ChangeView>)>::empty(),
    {
        let r = HistoryVersions { entries: Vec::new() };
        proof {
            assert(r.pairs() =~= Seq::<(int, Seq<ChangeView>)>::empty());
        }
        r
    }

    /// Inserts (or replaces) one generation, keeping the keys ascending.
    fn upsert(&mut self, key: usize, list: Vec<HistoryPackage>)
        requires
            old(self).wf(),
        ensures
            final(self).wf(),
            final(self).pairs() == upsert_pairs(old(self).pairs(), key as int, list.deep_view()),
    {
        let n = self.entries.len();
        let mut i: usize = 0;
        while i < n && self.entries[i].0 < key
            invariant
                0 <= i <= n,
                n == self.entries.len(),
                forall|j: int| 0 <= j < i ==> self.entries@[j].0 < key,
            decreases n - i,
        {
            i += 1;
        }
        let ghost m = self.pairs();
        let ghost kk = key as int;
        let ghost vv = list.deep_view();
        proof {
            lemma_upsert_at(m, kk, vv, i as int);
        }
        if i < n && self.entries[i].0 == key {
            self.entries[i] = (key, list);
            proof {
                let u = m.update(i as int, (kk, vv));
                assert(self.pairs() =~= u);
                assert forall|a: int, b: int| 0 <= a < b < u.len() implies u[a].0 < u[b].0 by {
                    assert(u[a].0 == m[a].0);
                    assert(u[b].0 == m[b].0);
                }
            }
        } else {
            self.entries.insert(i, (key, list));
            proof {
                let u = m.take(i as int) + seq![(kk, vv)] + m.skip(i as int);
                assert(self.pairs() =~= u);
                assert forall|a: int, b: int| 0 <= a < b < u.len() implies u[a].0 < u[b].0 by {
                    if a < i {
                        assert(u[a] == m[a]);
                    } else if a > i {
                        assert(u[a] == m[a - 1]);
                    }
                    if b < i {
                        assert(u[b] == m[b]);
                    } else if b > i {
                        assert(u[b] == m[b - 1]);
                    }
                }
            }
        }
    }

    /// The rows of the mapping, ascending by generation number.
    pub fn iter(&self) -> (r: &Vec<(usize, Vec<HistoryPackage>)>)
        ensures
            rows_view(r@) == self.pairs(),
    {
        &self.entries
    }

    /// The changes of one generation, when the mapping has it.
    pub fn get(&self, version: usize) -> (r: Option<&Vec<HistoryPackage>>)
        ensures
            match r {
                Some(v) => exists|i: int|
                    0 <= i < self.pairs().len() && self.pairs()[i] == (
                        version as int,
                        v.deep_view(),
                    ),
                None => forall|i: int|
                    0 <= i < self.pairs().len() ==> self.pairs()[i].0 != version as int,
            },
    {
        let n = self.entries.len();
        let mut i: usize = 0;
        while i < n
            invariant
                0 <= i <= n,
                n == self.entries.len(),
                forall|j: int| 0 <= j < i ==> self.pairs()[j].0 != version as int,
            decreases n - i,
        {
            if self.entries[i].0 == version {
                let r = &self.entries[i].1;
                proof {
                    assert(self.pairs()[i as int] == (version as int, r.deep_view()));
                }
                return Some(r);
            }
            i += 1;
        }
        None
    }

    /// Rebuilds a mapping from rows, upserting them in order.
    pub fn from_rows(rows: Vec<(usize, Vec<HistoryPackage>)>) -> (r: HistoryVersions)
        ensures
            r.wf(),
            r.pairs() == upsert_all(
                Seq::<(int, Seq<ChangeView>)>::empty(),
                rows_view(rows@),
            ),
    {
        let mut hv = HistoryVersions::empty();
        let mut rows = rows;
        let ghost all = rows_view(rows@);
        while rows.len() > 0
            invariant
                hv.wf(),
                upsert_all(Seq::<(int, Seq<ChangeView>)>::empty(), all) == upsert_all(
                    hv.pairs(),
                    rows_view(rows@),
                ),
            decreases rows.len(),
        {
            let ghost before = rows_view(rows@);
            let (key, list) = rows.remove(0);
            proof {
                assert(before.first() == (key as int, list.deep_view()));
                assert(before.drop_first() =~= rows_view(rows@));
            }
            hv.upsert(key, list);
        }
        proof {
            assert(rows_view(rows@) =~= Seq::<(int, Seq<ChangeView>)>::empty());
        }
        hv
    }
}

/// Reconstructs the generation history from the raw text of a history dump,
/// line by line, exactly as `history_spec` describes: normalized lines feed
/// the state machine, and the one fatal outcome is a header whose number
/// does not parse.
pub fn reconstruct(text: &str) -> (r: Result<HistoryVersions, Error>)
    ensures
        match r {
            Ok(v) => v.wf() && history_spec(text@) == Some(v.pairs()),
            Err(e) => history_spec(text@) is None && match e {
                Error::Unknown { code, message: _ } => code == 1,
                _ => false,
            },
        },
{
    let raw = split_lines(text);
    let ghost gl = normalized_lines(text@);
    let mut hv = HistoryVersions::empty();
    let mut idx: usize = 0;
    let mut acc: Vec<HistoryPackage> = Vec::new();
    let n = raw.len();
    let mut i: usize = 0;
    proof {
        assert(gl.skip(0) =~= gl);
        assert(acc.deep_view() =~= Seq::<ChangeView>::empty());
    }
    while i < n
        invariant
            0 <= i <= n,
            n == raw@.len(),
            raw.deep_view() == lines_spec(text@),
            gl == normalized_lines(text@),
            gl.len() == n,
            hv.wf(),
            history_spec(text@) == run_lines(
                gl.skip(i as int),
                idx as int,
                acc.deep_view(),
                hv.pairs(),
            ),
        decreases n - i,
    {
        let norm = normalize_line(raw[i].as_str());
        proof {
            assert(raw.deep_view()[i as int] == raw@[i as int]@);
            assert(gl[i as int] == trim_spec(ansi_stripped(raw.deep_view()[i as int])));
            assert(norm@ == gl[i as int]);
            assert(gl.skip(i as int).first() == gl[i as int]);
            assert(gl.skip(i as int).drop_first() =~= gl.skip(i + 1));
        }
        let nlen = norm.as_str().unicode_len();
        if nlen == 0 {
            i += 1;
        } else {
            let toks = split_tokens(norm.as_str());
            let is_hdr = toks.len() >= 1 && str_eq(toks[0].as_str(), "Version");
            proof {
                assert(toks.deep_view() == tokens_spec(gl[i as int]));
                if toks.len() >= 1 {
                    assert(toks.deep_view()[0] == toks@[0]@);
                }
                assert(is_hdr == is_header(gl[i as int]));
            }
            if is_hdr {
                if toks.len() < 2 {
                    if acc.is_empty() {
                        return Ok(hv);
                    } else {
                        hv.upsert(idx, acc);
                        return Ok(hv);
                    }
                }
                let tl = toks[1].as_str().unicode_len();
                let last_colon = tl > 0 && toks[1].as_str().get_char(tl - 1) == ':';
                let num_txt = if last_colon {
                    proof {
                        assert(toks@[1]@.subrange(0, tl - 1) =~= toks@[1]@.drop_last());
                    }
                    toks[1].as_str().substring_char(0, tl - 1)
                } else {
                    toks[1].as_str()
                };
                proof {
                    assert(toks.deep_view()[1] == toks@[1]@);
                    assert(num_txt@ == header_token(gl[i as int]));
                }
                match parse_usize(num_txt) {
                    Some(v) => {
                        proof {
                            assert(header_number(gl[i as int]) == Some(v as int));
                        }
                        let flushed = acc;
                        acc = Vec::new();
                        hv.upsert(idx, flushed);
                        idx = v;
                        proof {
                            assert(acc.deep_view() =~= Seq::<ChangeView>::empty());
                        }
                        i += 1;
                    },
                    None => {
                        proof {
                            assert(header_number(gl[i as int]) is None);
                            assert(run_lines(
                                gl.skip(i as int),
                                idx as int,
                                acc.deep_view(),
                                hv.pairs(),
                            ) is None);
                        }
                        let mut msg = String::from_str("failed to parse version number: '");
                        msg.append(toks[1].as_str());
                        msg.append("'");
                        return Err(Error::Unknown { code: 1, message: msg });
                    },
                }
            } else {
                let ch = HistoryPackage::from_line(norm.as_str());
                let keep = !matches!(ch.action, HistoryActions::NoChange);
                proof {
                    assert(ch.deep_view() == change_spec(gl[i as int]));
                    assert(keep == (change_spec(gl[i as int]).action != HistoryActions::NoChange));
                }
                if keep {
                    let ghost before = acc.deep_view();
                    acc.push(ch);
                    proof {
                        assert(acc.deep_view() =~= before.push(change_spec(gl[i as int])));
                    }
                }
                i += 1;
            }
        }
    }
    proof {
        assert(gl.skip(n as int) =~= Seq::<Seq<char>>::empty());
    }
    if acc.is_empty() {
        Ok(hv)
    } else {
        hv.upsert(idx, acc);
        Ok(hv)
    }
}

// ---------------------------------------------------------------------------
// Laws of the parser and the reconstruction.
// ---------------------------------------------------------------------------

/// A line without a transition marker parses to a record with no action at
/// all; the reconstruction then excludes it (`lemma_non_change_line_ignored`).
pub proof fn lemma_no_marker_no_change(line: Seq<char>)
    requires
        !is_change_line(line),
    ensures
        change_spec(line).action == HistoryActions::NoChange,
{
}

/// Whenever the current-version text is the unset sentinel, the record is a
/// removal with no current version, whatever the previous text was.
pub proof fn lemma_unset_current_is_removal(line: Seq<char>)
    requires
        is_change_line(line),
        curr_text(line) == UNSET_VERSION@,
    ensures
        change_spec(line).action == HistoryActions::Removed,
        change_spec(line).current is None,
{
}

/// Whenever the previous text is the unset sentinel and the current text is
/// concrete, the record is an addition.
pub proof fn lemma_unset_previous_is_addition(line: Seq<char>)
    requires
        is_change_line(line),
        prev_text(line) == UNSET_VERSION@,
        curr_text(line) != UNSET_VERSION@,
    ensures
        change_spec(line).action == HistoryActions::Added,
{
}

/// Whenever both sides are concrete and differ, the record is an upgrade.
pub proof fn lemma_concrete_sides_are_upgrade(line: Seq<char>)
    requires
        is_change_line(line),
        prev_text(line) != UNSET_VERSION@,
        curr_text(line) != UNSET_VERSION@,
        prev_text(line) != curr_text(line),
    ensures
        change_spec(line).action == HistoryActions::Upgraded,
{
}

/// An epsilon sentinel as the sole or first current-version candidate always
/// becomes the literal `latest`.
pub proof fn lemma_epsilon_becomes_latest(line: Seq<char>)
    requires
        is_change_line(line),
        curr_text(line) != UNSET_VERSION@,
        first_candidate(curr_text(line)) == EPSILON_VERSION@,
    ensures
        change_spec(line).current == Some("latest"@),
{
}

/// Only the first comma-separated candidate of the current-version text
/// matters: two lines with equal first candidates get equal current
/// versions, whatever follows the comma.
pub proof fn lemma_first_candidate_decides(l1: Seq<char>, l2: Seq<char>)
    requires
        is_change_line(l1),
        is_change_line(l2),
        curr_text(l1) != UNSET_VERSION@,
        curr_text(l2) != UNSET_VERSION@,
        first_candidate(curr_text(l1)) == first_candidate(curr_text(l2)),
    ensures
        change_spec(l1).current == change_spec(l2).current,
{
}

/// Every record of every generation obeys `good_record`.
pub open spec fn all_good(m: Seq<(int, Seq<ChangeView>)>) -> bool {
    forall|i: int, j: int|
        0 <= i < m.len() && 0 <= j < m[i].1.len() ==> good_record(#[trigger] m[i].1[j])
}

proof fn lemma_upsert_good(m: Seq<(int, Seq<ChangeView>)>, k: int, v: Seq<ChangeView>)
    requires
        all_good(m),
        forall|j: int| 0 <= j < v.len() ==> good_record(#[trigger] v[j]),
    ensures
        all_good(upsert_pairs(m, k, v)),
    decreases m.len(),
{
    if m.len() == 0 {
        let u = upsert_pairs(m, k, v);
        assert(u =~= seq![(k, v)]);
        assert(u[0].1 == v);
    } else {
        let t = m.drop_first();
        assert(all_good(t)) by {
            assert(forall|a: int| 0 <= a < t.len() ==> t[a] == m[a + 1]);
        }
        if m[0].0 < k {
            lemma_upsert_good(t, k, v);
            let u = upsert_pairs(m, k, v);
            let ut = upsert_pairs(t, k, v);
            assert(u =~= seq![m[0]] + ut);
            assert(forall|a: int| 0 <= a < ut.len() ==> u[a + 1] == ut[a]);
            assert(u[0] == m[0]);
        } else if m[0].0 == k {
            let u = upsert_pairs(m, k, v);
            assert(u =~= seq![(k, v)] + t);
            assert(forall|a: int| 0 <= a < t.len() ==> u[a + 1] == t[a]);
            assert(u[0].1 == v);
        } else {
            let u = upsert_pairs(m, k, v);
            assert(u =~= seq![(k, v)] + m);
            assert(forall|a: int| 0 <= a < m.len() ==> u[a + 1] == m[a]);
            assert(u[0].1 == v);
        }
    }
}

/// The state machine only ever stores good records: none of them carries
/// action `NoChange`, and each one's versions fit its action.
pub proof fn lemma_run_lines_good(
    lines: Seq<Seq<char>>,
    idx: int,
    acc: Seq<ChangeView>,
    m: Seq<(int, Seq<ChangeView>)>,
)
    requires
        forall|j: int| 0 <= j < acc.len() ==> good_record(#[trigger] acc[j]),
        all_good(m),
    ensures
        match run_lines(lines, idx, acc, m) {
            Some(res) => all_good(res),
            None => true,
        },
    decreases lines.len(),
{
    if lines.len() == 0 {
        if acc.len() > 0 {
            lemma_upsert_good(m, idx, acc);
        }
    } else {
        let line = lines.first();
        let rest = lines.drop_first();
        if line.len() == 0 {
            lemma_run_lines_good(rest, idx, acc, m);
        } else if is_header(line) {
            if tokens_spec(line).len() < 2 {
                if acc.len() > 0 {
                    lemma_upsert_good(m, idx, acc);
                }
            } else {
                match header_number(line) {
                    Some(n) => {
                        lemma_upsert_good(m, idx, acc);
                        lemma_run_lines_good(rest, n, Seq::empty(), upsert_pairs(m, idx, acc));
                    },
                    None => {},
                }
            }
        } else if change_spec(line).action == HistoryActions::NoChange {
            lemma_run_lines_good(rest, idx, acc, m);
        } else {
            lemma_change_invariant(line);
            let acc2 = acc.push(change_spec(line));
            assert(forall|j: int| 0 <= j < acc2.len() ==> good_record(#[trigger] acc2[j])) by {
                assert(forall|j: int| 0 <= j < acc.len() ==> acc2[j] == acc[j]);
            }
            lemma_run_lines_good(rest, idx, acc2, m);
        }
    }
}

/// Every record a reconstructed history holds is a good one.
pub proof fn lemma_history_records_good(text: Seq<char>)
    ensures
        match history_spec(text) {
            Some(res) => all_good(res),
            None => true,
        },
{
    lemma_run_lines_good(normalized_lines(text), 0, Seq::empty(), Seq::empty());
}

/// Upserting a batch of rows, first to last.
pub open spec fn upsert_all(
    m: Seq<(int, Seq<ChangeView>)>,
    rows: Seq<(int, Seq<ChangeView>)>,
) -> Seq<(int, Seq<ChangeView>)>
    decreases rows.len(),
{
    if rows.len() == 0 {
        m
    } else {
        upsert_all(upsert_pairs(m, rows.first().0, rows.first().1), rows.drop_first())
    }
}

proof fn lemma_upsert_all_sorted(pre: Seq<(int, Seq<ChangeView>)>, rows: Seq<(int, Seq<ChangeView>)>)
    requires
        sorted_keys(pre + rows),
    ensures
        upsert_all(pre, rows) == pre + rows,
    decreases rows.len(),
{
    if rows.len() == 0 {
        assert(pre + rows =~= pre);
    } else {
        let first = rows.first();
        let whole = pre + rows;
        assert(sorted_keys(pre)) by {
            assert(forall|a: int| 0 <= a < pre.len() ==> pre[a] == whole[a]);
        }
        assert(forall|j: int| 0 <= j < pre.len() ==> pre[j] == whole[j]);
        assert(first == whole[pre.len() as int]);
        assert(forall|j: int| 0 <= j < pre.len() ==> #[trigger] pre[j].0 < first.0);
        lemma_upsert_at(pre, first.0, first.1, pre.len() as int);
        let pre2 = pre.push(first);
        assert(upsert_pairs(pre, first.0, first.1) =~= pre2) by {
            assert(pre.take(pre.len() as int) =~= pre);
            assert(pre.skip(pre.len() as int) =~= Seq::<(int, Seq<ChangeView>)>::empty());
        }
        assert(pre2 + rows.drop_first() =~= pre + rows);
        lemma_upsert_all_sorted(pre2, rows.drop_first());
        assert(upsert_all(pre, rows) == upsert_all(pre2, rows.drop_first()));
    }
}

/// Round trip: rebuilding an ordered mapping from its own rows reproduces it
/// exactly, record for record.
pub proof fn lemma_rows_round_trip(m: Seq<(int, Seq<ChangeView>)>)
    requires
        sorted_keys(m),
    ensures
        upsert_all(Seq::<(int, Seq<ChangeView>)>::empty(), m) == m,
{
    let e = Seq::<(int, Seq<ChangeView>)>::empty();
    assert(e + m =~= m);
    lemma_upsert_all_sorted(e, m);
}

/// Where a linear scan stops, the recursive upsert acts: replacing in place
/// when the key exists, inserting just before the first larger key otherwise.
proof fn lemma_upsert_at(m: Seq<(int, Seq<ChangeView>)>, k: int, v: Seq<ChangeView>, i: int)
    requires
        sorted_keys(m),
        0 <= i <= m.len(),
        forall|j: int| 0 <= j < i ==> m[j].0 < k,
        i < m.len() ==> m[i].0 >= k,
    ensures
        i < m.len() && m[i].0 == k ==> upsert_pairs(m, k, v) == m.update(i, (k, v)),
        (i == m.len() || m[i].0 > k) ==> upsert_pairs(m, k, v) == m.take(i) + seq![(k, v)]
            + m.skip(i),
    decreases i,
{
    if i == 0 {
        if m.len() == 0 {
            assert(upsert_pairs(m, k, v) =~= m.take(0) + seq![(k, v)] + m.skip(0));
        } else if m[0].0 == k {
            assert(upsert_pairs(m, k, v) =~= m.update(0, (k, v)));
        } else {
            assert(m[0].0 > k);
            assert(upsert_pairs(m, k, v) =~= m.take(0) + seq![(k, v)] + m.skip(0));
        }
    } else {
        let t = m.drop_first();
        assert(sorted_keys(t)) by {
            assert(forall|a: int, b: int|
                0 <= a < b < t.len() ==> t[a].0 == m[a + 1].0 && t[b].0 == m[b + 1].0);
        }
        assert(forall|j: int| 0 <= j < i - 1 ==> t[j].0 == m[j + 1].0);
        assert(m[0].0 < k);
        lemma_upsert_at(t, k, v, i - 1);
        assert(upsert_pairs(m, k, v) == seq![m[0]] + upsert_pairs(t, k, v));
        if i < m.len() && m[i].0 == k {
            assert(t[i - 1].0 == k);
            assert(upsert_pairs(t, k, v) == t.update(i - 1, (k, v)));
            assert(seq![m[0]] + t.update(i - 1, (k, v)) =~= m.update(i, (k, v)));
        } else {
            assert(upsert_pairs(t, k, v) == t.take(i - 1) + seq![(k, v)] + t.skip(i - 1));
            assert(seq![m[0]] + (t.take(i - 1) + seq![(k, v)] + t.skip(i - 1)) =~= m.take(i)
                + seq![(k, v)] + m.skip(i));
        }
    }
}

} // verus!

