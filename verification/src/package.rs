//! Package metadata parsed from the human-readable per-package info text,
//! and the store-path version inferencer shared with the listing builder.

use vstd::prelude::*;
use crate::error::Error;
use crate::normalize::{ansi_stripped, strip_ansi};
use crate::strutil::{
    ends_with_str, eq_ci, find_spec, find_str, lines_spec, split_lines, split_tokens,
    starts_with_ci, tokens_spec, trim_spec, trim_str,
};

verus! {

// ---------------------------------------------------------------------------
// The store-path version inferencer.
// ---------------------------------------------------------------------------

/// Position of the last occurrence of the character `c` in `s`.
pub open spec fn rfind_char_spec(s: Seq<char>, c: char) -> Option<int>
    decreases s.len(),
{
    if s.len() == 0 {
        None
    } else if s.last() == c {
        Some(s.len() - 1)
    } else {
        rfind_char_spec(s.drop_last(), c)
    }
}

/// The final path segment: everything after the last `/`, or the whole path
/// when there is none.
pub open spec fn final_segment(path: Seq<char>) -> Seq<char> {
    match rfind_char_spec(path, '/') {
        Some(i) => path.skip(i + 1),
        None => path,
    }
}

/// The version embedded in a store path for a package key: everything of the
/// final path segment after the first occurrence of the key, with exactly
/// one leading separator character dropped. Nothing is inferred when the key
/// does not occur or nothing follows it.
pub open spec fn infer_version_spec(path: Seq<char>, key: Seq<char>) -> Option<Seq<char>> {
    let fname = final_segment(path);
    match find_spec(fname, key) {
        None => None,
        Some(i) => {
            let tail = fname.skip(i + key.len());
            if tail.len() == 0 {
                None
            } else {
                Some(tail.drop_first())
            }
        },
    }
}

/// Position of the last occurrence of `c` in `s`.
pub fn rfind_char(s: &str, c: char) -> (r: Option<usize>)
    ensures
        match r {
            Some(i) => rfind_char_spec(s@, c) == Some(i as int),
            None => rfind_char_spec(s@, c) is None,
        },
{
    let n = s.unicode_len();
    let mut j: usize = n;
    proof {
        assert(s@.take(n as int) =~= s@);
    }
    while j > 0
        invariant
            0 <= j <= n,
            n == s@.len(),
            rfind_char_spec(s@, c) == rfind_char_spec(s@.take(j as int), c),
        decreases j,
    {
        proof {
            assert(s@.take(j as int).last() == s@[j - 1]);
            assert(s@.take(j as int).drop_last() =~= s@.take(j - 1));
        }
        if s.get_char(j - 1) == c {
            return Some(j - 1);
        }
        j -= 1;
    }
    proof {
        assert(s@.take(0) =~= Seq::<char>::empty());
    }
    None
}

/// Infers a package's version from one of its store paths, as
/// `infer_version_spec` describes it.
pub fn get_version(path: &str, package_name: &str) -> (r: Option<String>)
    ensures
        r.deep_view() == infer_version_spec(path@, package_name@),
{
    let n = path.unicode_len();
    let filename = match rfind_char(path, '/') {
        Some(i) => {
            proof {
                lemma_rfind_in_range(path@, '/');
                assert(path@.skip(i + 1) =~= path@.subrange(i + 1, n as int));
            }
            path.substring_char(i + 1, n)
        },
        None => path,
    };
    proof {
        assert(filename@ == final_segment(path@));
    }
    let fn_len = filename.unicode_len();
    let key_len = package_name.unicode_len();
    match find_str(filename, package_name) {
        None => None,
        Some(i) => {
            proof {
                assert(filename@.skip(i + key_len) =~= filename@.subrange(
                    i + key_len,
                    fn_len as int,
                ));
            }
            if i + key_len == fn_len {
                None
            } else {
                let tail = filename.substring_char(i + key_len, fn_len);
                let tl = tail.unicode_len();
                proof {
                    assert(tail@.drop_first() =~= tail@.subrange(1, tl as int));
                }
                Some(tail.substring_char(1, tl).to_owned())
            }
        },
    }
}

proof fn lemma_rfind_in_range(s: Seq<char>, c: char)
    ensures
        match rfind_char_spec(s, c) {
            Some(i) => 0 <= i < s.len(),
            None => true,
        },
    decreases s.len(),
{
    if s.len() > 0 && s.last() != c {
        lemma_rfind_in_range(s.drop_last(), c);
    }
}

// ---------------------------------------------------------------------------
// Canonical store-path selection.
// ---------------------------------------------------------------------------

/// `s` ends with `suf`.
pub open spec fn ends_with_spec(s: Seq<char>, suf: Seq<char>) -> bool {
    suf.len() <= s.len() && s.skip(s.len() - suf.len()) == suf
}

/// The first path that does not end with the documentation-output suffix.
pub open spec fn first_kept(paths: Seq<Seq<char>>) -> Option<Seq<char>>
    decreases paths.len(),
{
    if paths.len() == 0 {
        None
    } else if !ends_with_spec(paths.first(), "-man"@) {
        Some(paths.first())
    } else {
        first_kept(paths.drop_first())
    }
}

/// The canonical store path of a package: its only path when there is
/// exactly one, otherwise the first path that is no documentation output.
pub open spec fn canonical_path_spec(paths: Seq<Seq<char>>) -> Option<Seq<char>> {
    if paths.len() == 1 {
        Some(paths[0])
    } else {
        first_kept(paths)
    }
}

/// Selects the canonical store path out of a list of paths.
pub fn select_store_path(paths: &Vec<String>) -> (r: Option<&String>)
    ensures
        match r {
            Some(p) => canonical_path_spec(paths.deep_view()) == Some(p@),
            None => canonical_path_spec(paths.deep_view()) is None,
        },
{
    if paths.len() == 1 {
        return Some(&paths[0]);
    }
    let n = paths.len();
    let mut i: usize = 0;
    proof {
        assert(paths.deep_view().skip(0) =~= paths.deep_view());
    }
    while i < n
        invariant
            0 <= i <= n,
            n == paths@.len(),
            n != 1,
            first_kept(paths.deep_view()) == first_kept(paths.deep_view().skip(i as int)),
        decreases n - i,
    {
        proof {
            assert(paths.deep_view().skip(i as int).first() == paths@[i as int]@);
            assert(paths.deep_view().skip(i as int).drop_first() =~= paths.deep_view().skip(
                i + 1,
            ));
        }
        if !ends_with_str(paths[i].as_str(), "-man") {
            return Some(&paths[i]);
        }
        i += 1;
    }
    proof {
        assert(paths.deep_view().skip(n as int) =~= Seq::<Seq<char>>::empty());
    }
    None
}

// ---------------------------------------------------------------------------
// The per-package info text.
// ---------------------------------------------------------------------------

/// A package described by the external tool's per-package info text.
#[derive(Debug)]
pub struct Package {
    unprocessed: String,
    pub name: String,
    pub flake_attribute: String,
    pub flake_url: String,
    pub version: String,
}

/// The fields the info parser accumulates.
#[verifier::ext_equal]
pub ghost struct InfoView {
    pub name: Seq<char>,
    pub attr: Seq<char>,
    pub url: Seq<char>,
    pub version: Seq<char>,
}

/// `s` begins with `pre`, comparing ASCII letters case-insensitively.
pub open spec fn starts_ci_spec(s: Seq<char>, pre: Seq<char>) -> bool {
    pre.len() <= s.len() && forall|i: int| 0 <= i < pre.len() ==> eq_ci(s[i], pre[i])
}

/// The last whitespace-separated token of a line, empty when there is none.
pub open spec fn last_token(line: Seq<char>) -> Seq<char> {
    let toks = tokens_spec(line);
    if toks.len() > 0 {
        toks.last()
    } else {
        Seq::empty()
    }
}

/// One pass of the info parser over the lines of a package's info text:
/// name, attribute and URL lines feed their last token into the record, and
/// the first store-paths line infers the version and ends the pass.
pub open spec fn info_step(lines: Seq<Seq<char>>, st: InfoView) -> InfoView
    decreases lines.len(),
{
    if lines.len() == 0 {
        st
    } else {
        let line = lines.first();
        let rest = lines.drop_first();
        if starts_ci_spec(line, "name:"@) {
            info_step(rest, InfoView { name: st.name + last_token(line), attr: st.attr, url: st.url, version: st.version })
        } else if starts_ci_spec(line, "flake attribute:"@) {
            info_step(rest, InfoView { name: st.name, attr: last_token(line), url: st.url, version: st.version })
        } else if starts_ci_spec(line, "original flake url:"@) {
            info_step(rest, InfoView { name: st.name, attr: st.attr, url: st.url + last_token(line), version: st.version })
        } else if starts_ci_spec(line, "store paths:"@) {
            let paths = tokens_spec(trim_spec(line.skip(12)));
            match canonical_path_spec(paths) {
                Some(p) => match infer_version_spec(p, st.name) {
                    Some(v) => InfoView { name: st.name, attr: st.attr, url: st.url, version: v },
                    None => st,
                },
                None => st,
            }
        } else {
            info_step(rest, st)
        }
    }
}

/// The record parsed from a whole info text: the stripped text's lines run
/// through `info_step`, starting from the defaults.
pub open spec fn info_spec(text: Seq<char>) -> InfoView {
    info_step(
        lines_spec(ansi_stripped(text)),
        InfoView { name: Seq::empty(), attr: "default"@, url: Seq::empty(), version: "latest"@ },
    )
}

impl Package {
    /// The raw info text this package was parsed from.
    pub closed spec fn unprocessed_view(&self) -> Seq<char> {
        self.unprocessed@
    }

    pub closed spec fn info_view(&self) -> InfoView {
        InfoView {
            name: self.name@,
            attr: self.flake_attribute@,
            url: self.flake_url@,
            version: self.version@,
        }
    }

    /// Parses a package's info text. Every field line contributes its last
    /// whitespace-separated token, so the parse always succeeds; the
    /// `Result` mirrors the operation interface around it.
    pub fn from(text: &str) -> (r: Result<Package, Error>)
        ensures
            match r {
                Ok(p) => p.info_view() == info_spec(text@) && p.unprocessed_view() == text@,
                Err(_) => false,
            },
    {
        proof {
            reveal_strlit("name:");
            reveal_strlit("flake attribute:");
            reveal_strlit("original flake url:");
            reveal_strlit("store paths:");
        }
        let unprocessed = text.to_owned();
        let stripped = strip_ansi(text);
        let lines = split_lines(stripped.as_str());
        let ghost gl = lines_spec(ansi_stripped(text@));
        let mut name = String::new();
        let mut flake_attribute = String::from_str("default");
        let mut flake_url = String::new();
        let mut version = String::from_str("latest");
        let n = lines.len();
        let mut i: usize = 0;
        proof {
            assert(gl.skip(0) =~= gl);
        }
        while i < n
            invariant
                0 <= i <= n,
                n == lines@.len(),
                lines.deep_view() == gl,
                unprocessed@ == text@,
                info_spec(text@) == info_step(
                    gl.skip(i as int),
                    InfoView { name: name@, attr: flake_attribute@, url: flake_url@, version: version@ },
                ),
            decreases n - i,
        {
            let line = &lines[i];
            proof {
                reveal_strlit("name:");
                reveal_strlit("flake attribute:");
                reveal_strlit("original flake url:");
                reveal_strlit("store paths:");
                assert(gl.skip(i as int).first() == lines@[i as int]@);
                assert(gl.skip(i as int).drop_first() =~= gl.skip(i + 1));
            }
            if starts_with_ci(line.as_str(), "name:") {
                let toks = split_tokens(line.as_str());
                if let Some(t) = toks.last() {
                    name.append(t.as_str());
                    proof {
                        assert(toks.deep_view().last() == toks@[toks@.len() - 1]@);
                    }
                } else {
                    proof {
                        assert(last_token(lines@[i as int]@) =~= Seq::<char>::empty());
                        assert(name@ + Seq::<char>::empty() =~= name@);
                    }
                }
            } else if starts_with_ci(line.as_str(), "flake attribute:") {
                let toks = split_tokens(line.as_str());
                if let Some(t) = toks.last() {
                    flake_attribute = t.clone();
                    proof {
                        assert(toks.deep_view().last() == toks@[toks@.len() - 1]@);
                    }
                }
            } else if starts_with_ci(line.as_str(), "original flake url:") {
                let toks = split_tokens(line.as_str());
                if let Some(t) = toks.last() {
                    flake_url.append(t.as_str());
                    proof {
                        assert(toks.deep_view().last() == toks@[toks@.len() - 1]@);
                    }
                }
            } else if starts_with_ci(line.as_str(), "store paths:") {
                let ll = line.as_str().unicode_len();
                proof {
                    assert(lines@[i as int]@.skip(12) =~= lines@[i as int]@.subrange(
                        12,
                        ll as int,
                    ));
                }
                let rest_line = trim_str(line.as_str().substring_char(12, ll));
                let paths = split_tokens(rest_line);
                let ghost st = InfoView {
                    name: name@,
                    attr: flake_attribute@,
                    url: flake_url@,
                    version: version@,
                };
                proof {
                    let lv = gl[i as int];
                    assert(paths.deep_view() == tokens_spec(trim_spec(lv.skip(12))));
                    assert(info_spec(text@) == info_step(gl.skip(i as int), st));
                }
                match select_store_path(&paths) {
                    Some(p) => {
                        match get_version(p.as_str(), name.as_str()) {
                            Some(v) => {
                                version = v;
                            },
                            None => {},
                        }
                    },
                    None => {},
                }
                proof {
                    let lv = gl[i as int];
                    let final_st = match canonical_path_spec(
                        tokens_spec(trim_spec(lv.skip(12))),
                    ) {
                        Some(cp) => match infer_version_spec(cp, st.name) {
                            Some(v) => InfoView {
                                name: st.name,
                                attr: st.attr,
                                url: st.url,
                                version: v,
                            },
                            None => st,
                        },
                        None => st,
                    };
                    assert(info_step(gl.skip(i as int), st) == final_st);
                    assert(version@ == final_st.version);
                }
                let p = Package { unprocessed, name, flake_attribute, flake_url, version };
                proof {
                    assert(p.info_view() =~= info_spec(text@));
                }
                return Ok(p);
            }
            i += 1;
        }
        proof {
            assert(gl.skip(n as int) =~= Seq::<Seq<char>>::empty());
        }
        let p = Package { unprocessed, name, flake_attribute, flake_url, version };
        proof {
            assert(p.info_view() =~= info_spec(text@));
        }
        Ok(p)
    }

    /// The package shown as `<name> <version>`.
    pub fn to_version_string(&self) -> (r: String)
        ensures
            r@ == self.info_view().name + " "@ + self.info_view().version,
    {
        let mut s = self.name.clone();
        s.append(" ");
        s.append(self.version.as_str());
        s
    }

    /// The raw text the package was parsed from, for display.
    pub fn display_string(&self) -> (r: String)
        ensures
            r@ == self.unprocessed_view(),
    {
        self.unprocessed.clone()
    }
}

} // verus!
