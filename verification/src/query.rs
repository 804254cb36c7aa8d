//! The enriched package listing: the listing entity, the directory-size
//! accumulator over a plain tree model, and the ordered listing collection
//! with its filter/search/mutate operations.

use vstd::prelude::*;
use crate::package::{canonical_path_spec, get_version, infer_version_spec, select_store_path};

verus! {

broadcast use vstd::seq::axiom_seq_index_decreases, vstd::seq::axiom_seq_subrange_decreases, vstd::std_specs::vec::axiom_vec_decreases_to_view;

/// The version a package carries before inference: the `latest` placeholder.
pub fn verion_default() -> (r: String)
    ensures
        r@ == "latest"@,
{
    String::from_str("latest")
}

/// One package of the listing, as the external tool reports it, enriched
/// with an inferred version and an installed size.
#[derive(Debug)]
pub struct Package {
    pub active: bool,
    pub attr_path: String,
    pub original_url: String,
    pub outputs: Option<String>,
    pub priority: isize,
    pub store_paths: Vec<String>,
    pub url: String,
    pub homepage: Option<String>,
    pub installed_size: Option<u64>,
    pub version: String,
}

/// The mathematical value of a listing package.
#[verifier::ext_equal]
pub ghost struct PackageView {
    pub active: bool,
    pub attr_path: Seq<char>,
    pub original_url: Seq<char>,
    pub outputs: Option<Seq<char>>,
    pub priority: int,
    pub store_paths: Seq<Seq<char>>,
    pub url: Seq<char>,
    pub homepage: Option<Seq<char>>,
    pub installed_size: Option<u64>,
    pub version: Seq<char>,
}

impl DeepView for Package {
    type V = PackageView;

    open spec fn deep_view(&self) -> PackageView {
        PackageView {
            active: self.active,
            attr_path: self.attr_path@,
            original_url: self.original_url@,
            outputs: self.outputs.deep_view(),
            priority: self.priority as int,
            store_paths: self.store_paths.deep_view(),
            url: self.url@,
            homepage: self.homepage.deep_view(),
            installed_size: self.installed_size,
            version: self.version@,
        }
    }
}

impl Package {
    /// The canonical store path: the only one when there is exactly one,
    /// otherwise the first that is no documentation output.
    pub fn store_path(&self) -> (r: Option<String>)
        ensures
            r.deep_view() == canonical_path_spec(self.store_paths.deep_view()),
    {
        match select_store_path(&self.store_paths) {
            Some(p) => Some(p.clone()),
            None => None,
        }
    }
}

// ---------------------------------------------------------------------------
// The directory-size accumulator, over a plain tree model of the entries
// found under a store path.
// ---------------------------------------------------------------------------

/// One filesystem entry: a regular file with its byte length, a directory
/// with its entries, or anything else (links, devices), which counts as
/// zero.
pub enum FsEntry {
    File { size: u64 },
    Dir { entries: Vec<FsEntry> },
    Other,
}

/// The byte total of one entry.
pub open spec fn entry_total(e: FsEntry) -> nat
    decreases e,
{
    match e {
        FsEntry::File { size } => size as nat,
        FsEntry::Dir { entries } => entries_total(entries@),
        FsEntry::Other => 0,
    }
}

/// The byte total of a list of entries.
pub open spec fn entries_total(s: Seq<FsEntry>) -> nat
    decreases s,
{
    if s.len() == 0 {
        0
    } else {
        entry_total(s[0]) + entries_total(s.subrange(1, s.len() as int))
    }
}

proof fn lemma_entries_total_concat(a: Seq<FsEntry>, b: Seq<FsEntry>)
    ensures
        entries_total(a + b) == entries_total(a) + entries_total(b),
    decreases a.len(),
{
    if a.len() == 0 {
        assert(a + b =~= b);
    } else {
        let t = a.subrange(1, a.len() as int);
        lemma_entries_total_concat(t, b);
        assert((a + b)[0] == a[0]);
        assert((a + b).subrange(1, (a + b).len() as int) =~= t + b);
    }
}

proof fn lemma_entries_total_push(s: Seq<FsEntry>, e: FsEntry)
    ensures
        entries_total(s.push(e)) == entries_total(s) + entry_total(e),
{
    assert(s.push(e) =~= s + seq![e]);
    lemma_entries_total_concat(s, seq![e]);
    assert(entries_total(seq![e]) == entry_total(e)) by {
        assert(seq![e].len() == 1);
        assert(seq![e][0] == e);
        assert(seq![e].subrange(1, 1) =~= Seq::<FsEntry>::empty());
        assert(entries_total(Seq::<FsEntry>::empty()) == 0);
    }
}

/// Sums the sizes of all regular files in a tree of entries: the recursive
/// walk's result, or nothing when the total does not fit in 64 bits.
pub fn get_dir_size(entries: &Vec<FsEntry>) -> (r: Option<u64>)
    ensures
        match r {
            Some(v) => entries_total(entries@) == v,
            None => entries_total(entries@) > u64::MAX,
        },
    decreases entries@,
{
    let mut total: u64 = 0;
    let n = entries.len();
    let mut i: usize = 0;
    proof {
        assert(entries@.subrange(0, 0) =~= Seq::<FsEntry>::empty());
    }
    while i < n
        invariant
            0 <= i <= n,
            n == entries@.len(),
            total == entries_total(entries@.subrange(0, i as int)),
        decreases n - i,
    {
        proof {
            assert(entries@.subrange(0, i + 1) =~= entries@.subrange(0, i as int).push(
                entries@[i as int],
            ));
            lemma_entries_total_push(entries@.subrange(0, i as int), entries@[i as int]);
        }
        let add = match &entries[i] {
            FsEntry::File { size } => Some(*size),
            FsEntry::Dir { entries: sub } => get_dir_size(sub),
            FsEntry::Other => Some(0u64),
        };
        let step = match add {
            Some(a) => total.checked_add(a),
            None => None,
        };
        match step {
            Some(v) => {
                total = v;
            },
            None => {
                proof {
                    assert(entries_total(entries@.subrange(0, i + 1)) > u64::MAX);
                    assert(entries@ =~= entries@.subrange(0, i + 1) + entries@.subrange(
                        i + 1,
                        n as int,
                    ));
                    lemma_entries_total_concat(
                        entries@.subrange(0, i + 1),
                        entries@.subrange(i + 1, n as int),
                    );
                }
                return None;
            },
        }
        i += 1;
    }
    proof {
        assert(entries@.subrange(0, n as int) =~= entries@);
    }
    Some(total)
}

// ---------------------------------------------------------------------------
// The ordered package listing.
// ---------------------------------------------------------------------------

/// Lexicographic order on keys, by character code.
pub open spec fn seq_lt(a: Seq<char>, b: Seq<char>) -> bool
    decreases a.len(),
{
    if b.len() == 0 {
        false
    } else if a.len() == 0 {
        true
    } else if a[0] == b[0] {
        seq_lt(a.drop_first(), b.drop_first())
    } else {
        (a[0] as u32) < (b[0] as u32)
    }
}

pub proof fn lemma_seq_lt_connected(a: Seq<char>, b: Seq<char>)
    requires
        !seq_lt(a, b),
        !seq_lt(b, a),
    ensures
        a == b,
    decreases a.len(),
{
    if b.len() == 0 {
        assert(a =~= b);
    } else if a.len() == 0 {
    } else if a[0] == b[0] {
        lemma_seq_lt_connected(a.drop_first(), b.drop_first());
        assert(a =~= b) by {
            assert(a.drop_first() == b.drop_first());
            assert(forall|i: int|
                1 <= i < a.len() ==> a[i] == a.drop_first()[i - 1] && b[i] == b.drop_first()[i
                    - 1]);
        }
    } else {
        if (a[0] as u32) < (b[0] as u32) {
            assert(seq_lt(a, b));
        } else if (b[0] as u32) < (a[0] as u32) {
            assert(seq_lt(b, a));
        } else {
            assert((a[0] as u32) == (b[0] as u32));
            lemma_char_code_injective(a[0], b[0]);
        }
    }
}

/// Two characters with the same code are the same character.
proof fn lemma_char_code_injective(x: char, y: char)
    requires
        x as u32 == y as u32,
    ensures
        x == y,
{
}

pub proof fn lemma_seq_lt_trans(a: Seq<char>, b: Seq<char>, c: Seq<char>)
    requires
        seq_lt(a, b),
        seq_lt(b, c),
    ensures
        seq_lt(a, c),
    decreases a.len(),
{
    if c.len() == 0 {
    } else if a.len() == 0 {
    } else if b.len() == 0 {
    } else {
        if a[0] == b[0] && b[0] == c[0] {
            lemma_seq_lt_trans(a.drop_first(), b.drop_first(), c.drop_first());
        }
    }
}

/// Compares two string slices in the lexicographic key order.
pub fn str_lt(a: &str, b: &str) -> (r: bool)
    ensures
        r == seq_lt(a@, b@),
{
    let na = a.unicode_len();
    let nb = b.unicode_len();
    let mut i: usize = 0;
    proof {
        assert(a@.skip(0) =~= a@);
        assert(b@.skip(0) =~= b@);
    }
    while i < na && i < nb
        invariant
            0 <= i <= na,
            0 <= i <= nb,
            na == a@.len(),
            nb == b@.len(),
            forall|k: int| 0 <= k < i ==> a@[k] == b@[k],
            seq_lt(a@, b@) == seq_lt(a@.skip(i as int), b@.skip(i as int)),
        decreases na - i,
    {
        let ca = a.get_char(i);
        let cb = b.get_char(i);
        proof {
            assert(a@.skip(i as int)[0] == a@[i as int]);
            assert(b@.skip(i as int)[0] == b@[i as int]);
            assert(a@.skip(i as int).drop_first() =~= a@.skip(i + 1));
            assert(b@.skip(i as int).drop_first() =~= b@.skip(i + 1));
        }
        if ca != cb {
            return (ca as u32) < (cb as u32);
        }
        i += 1;
    }
    proof {
        if i == na {
            assert(a@.skip(i as int) =~= Seq::<char>::empty());
        }
        if i == nb {
            assert(b@.skip(i as int) =~= Seq::<char>::empty());
        }
    }
    na < nb
}

/// The view of listing rows as ordered (key, package) pairs.
pub open spec fn listing_view(rows: Seq<(String, Package)>) -> Seq<(Seq<char>, PackageView)> {
    rows.map_values(|e: (String, Package)| (e.0@, e.1.deep_view()))
}

/// Keys strictly ascending in the lexicographic order.
pub open spec fn sorted_listing(m: Seq<(Seq<char>, PackageView)>) -> bool {
    forall|i: int, j: int| 0 <= i < j < m.len() ==> seq_lt(m[i].0, m[j].0)
}

/// Inserting (or replacing) one entry in an ordered listing.
pub open spec fn upsert_listing(
    m: Seq<(Seq<char>, PackageView)>,
    k: Seq<char>,
    v: PackageView,
) -> Seq<(Seq<char>, PackageView)>
    decreases m.len(),
{
    if m.len() == 0 {
        seq![(k, v)]
    } else if seq_lt(m[0].0, k) {
        seq![m[0]] + upsert_listing(m.drop_first(), k, v)
    } else if m[0].0 == k {
        seq![(k, v)] + m.drop_first()
    } else {
        seq![(k, v)] + m
    }
}

/// Upserting a batch of entries, first to last.
pub open spec fn upsert_listing_all(
    m: Seq<(Seq<char>, PackageView)>,
    rows: Seq<(Seq<char>, PackageView)>,
) -> Seq<(Seq<char>, PackageView)>
    decreases rows.len(),
{
    if rows.len() == 0 {
        m
    } else {
        upsert_listing_all(upsert_listing(m, rows.first().0, rows.first().1), rows.drop_first())
    }
}

proof fn lemma_upsert_listing_at(
    m: Seq<(Seq<char>, PackageView)>,
    k: Seq<char>,
    v: PackageView,
    i: int,
)
    requires
        sorted_listing(m),
        0 <= i <= m.len(),
        forall|j: int| 0 <= j < i ==> seq_lt(#[trigger] m[j].0, k),
        i < m.len() ==> !seq_lt(m[i].0, k),
    ensures
        i < m.len() && m[i].0 == k ==> upsert_listing(m, k, v) == m.update(i, (k, v)),
        (i == m.len() || m[i].0 != k) ==> upsert_listing(m, k, v) == m.take(i) + seq![(k, v)]
            + m.skip(i),
    decreases i,
{
    if i == 0 {
        if m.len() == 0 {
            assert(upsert_listing(m, k, v) =~= m.take(0) + seq![(k, v)] + m.skip(0));
        } else if m[0].0 == k {
            assert(upsert_listing(m, k, v) =~= m.update(0, (k, v)));
        } else {
            assert(upsert_listing(m, k, v) =~= m.take(0) + seq![(k, v)] + m.skip(0));
        }
    } else {
        let t = m.drop_first();
        assert(sorted_listing(t)) by {
            assert(forall|a: int, b: int|
                0 <= a < b < t.len() ==> t[a] == m[a + 1] && t[b] == m[b + 1]);
        }
        assert(forall|j: int| 0 <= j < i - 1 ==> t[j] == m[j + 1]);
        assert(seq_lt(m[0].0, k));
        lemma_upsert_listing_at(t, k, v, i - 1);
        assert(upsert_listing(m, k, v) == seq![m[0]] + upsert_listing(t, k, v));
        if i < m.len() && m[i].0 == k {
            assert(t[i - 1].0 == k);
            assert(seq![m[0]] + t.update(i - 1, (k, v)) =~= m.update(i, (k, v)));
        } else {
            assert(seq![m[0]] + (t.take(i - 1) + seq![(k, v)] + t.skip(i - 1)) =~= m.take(i)
                + seq![(k, v)] + m.skip(i));
        }
    }
}

/// The pair stands somewhere in the listing value `m`.
pub open spec fn in_listing(
    m: Seq<(Seq<char>, PackageView)>,
    pair: (Seq<char>, PackageView),
) -> bool {
    exists|i: int| 0 <= i < m.len() && m[i] == pair
}

/// The pair stands in the first `j` rows of `m`.
pub open spec fn in_listing_prefix(
    m: Seq<(Seq<char>, PackageView)>,
    j: int,
    pair: (Seq<char>, PackageView),
) -> bool {
    exists|i: int| 0 <= i < j && i < m.len() && m[i] == pair
}

/// The predicate, called on some representative of the (key, package) pair,
/// may answer `b`.
pub open spec fn may_answer<P: Fn(&String, &Package) -> bool>(
    predicate: P,
    k: Seq<char>,
    v: PackageView,
    b: bool,
) -> bool {
    exists|ks: String, vs: Package|
        ks@ == k && vs.deep_view() == v && call_ensures(predicate, (&ks, &vs), b)
}

/// The update function, called on some representative of the pair, may
/// produce a package with value `nv`.
pub open spec fn may_update<U: Fn(&String, &Package) -> Package>(
    update: U,
    k: Seq<char>,
    v: PackageView,
    nv: PackageView,
) -> bool {
    exists|ks: String, vs: Package, out: Package|
        ks@ == k && vs.deep_view() == v && out.deep_view() == nv && call_ensures(
            update,
            (&ks, &vs),
            out,
        )
}

/// Clones one option-of-string field.
fn clone_opt_string(o: &Option<String>) -> (r: Option<String>)
    ensures
        r == *o,
{
    match o {
        Some(s) => Some(s.clone()),
        None => None,
    }
}

/// Clones one listing package, field for field.
pub fn clone_package(p: &Package) -> (r: Package)
    ensures
        r.deep_view() == p.deep_view(),
{
    let store_paths = p.store_paths.clone();
    proof {
        assert forall|i: int| 0 <= i < p.store_paths@.len() implies store_paths@[i]
            == p.store_paths@[i] by {
            assert(cloned::<String>(p.store_paths[i], store_paths[i]));
        }
        assert(store_paths@ =~= p.store_paths@);
    }
    let r = Package {
        active: p.active,
        attr_path: p.attr_path.clone(),
        original_url: p.original_url.clone(),
        outputs: clone_opt_string(&p.outputs),
        priority: p.priority,
        store_paths,
        url: p.url.clone(),
        homepage: clone_opt_string(&p.homepage),
        installed_size: p.installed_size,
        version: p.version.clone(),
    };
    proof {
        assert(r.deep_view() =~= p.deep_view());
    }
    r
}

/// A package's value after version inference: the version embedded in its
/// canonical store path, when there is one, else what it had.
pub open spec fn enrich_version(k: Seq<char>, p: PackageView) -> PackageView {
    match canonical_path_spec(p.store_paths) {
        Some(cp) => match infer_version_spec(cp, k) {
            Some(v) => PackageView {
                active: p.active,
                attr_path: p.attr_path,
                original_url: p.original_url,
                outputs: p.outputs,
                priority: p.priority,
                store_paths: p.store_paths,
                url: p.url,
                homepage: p.homepage,
                installed_size: p.installed_size,
                version: v,
            },
            None => p,
        },
        None => p,
    }
}

/// A package's value with its installed size recorded.
pub open spec fn with_size(p: PackageView, size: u64) -> PackageView {
    PackageView {
        active: p.active,
        attr_path: p.attr_path,
        original_url: p.original_url,
        outputs: p.outputs,
        priority: p.priority,
        store_paths: p.store_paths,
        url: p.url,
        homepage: p.homepage,
        installed_size: Some(size),
        version: p.version,
    }
}

/// The package listing: an ordered collection of unique keys and their
/// packages.
#[derive(Debug)]
pub struct PackageListing {
    elements: Vec<(String, Package)>,
}

impl PackageListing {
    /// The listing's value: (key, package) pairs in ascending key order.
    pub closed spec fn pairs(&self) -> Seq<(Seq<char>, PackageView)> {
        listing_view(self.elements@)
    }

    pub open spec fn wf(&self) -> bool {
        sorted_listing(self.pairs())
    }

    /// Builds a listing from raw (key, package) rows, in order; a repeated
    /// key keeps the later package.
    pub fn new(rows: Vec<(String, Package)>) -> (r: PackageListing)
        ensures
            r.wf(),
            r.pairs() == upsert_listing_all(
                Seq::<(Seq<char>, PackageView)>::empty(),
                listing_view(rows@),
            ),
    {
        let mut listing = PackageListing { elements: Vec::new() };
        proof {
            assert(listing.pairs() =~= Seq::<(Seq<char>, PackageView)>::empty());
        }
        let mut rows = rows;
        let ghost all = listing_view(rows@);
        while rows.len() > 0
            invariant
                listing.wf(),
                upsert_listing_all(Seq::<(Seq<char>, PackageView)>::empty(), all)
                    == upsert_listing_all(listing.pairs(), listing_view(rows@)),
            decreases rows.len(),
        {
            let ghost before = listing_view(rows@);
            let (key, pack) = rows.remove(0);
            proof {
                assert(before.first() == (key@, pack.deep_view()));
                assert(before.drop_first() =~= listing_view(rows@));
            }
            listing.upsert(key, pack);
        }
        proof {
            assert(listing_view(rows@) =~= Seq::<(Seq<char>, PackageView)>::empty());
        }
        listing
    }

    /// The listing has no packages.
    pub fn is_empty(&self) -> (r: bool)
        ensures
            r == (self.pairs().len() == 0),
    {
        self.elements.is_empty()
    }

    /// The keys of the listing, in ascending order.
    pub fn keys(&self) -> (r: Vec<String>)
        ensures
            r.deep_view() == self.pairs().map_values(|e: (Seq<char>, PackageView)| e.0),
    {
        let mut out: Vec<String> = Vec::new();
        let n = self.elements.len();
        let mut i: usize = 0;
        while i < n
            invariant
                0 <= i <= n,
                n == self.elements@.len(),
                out@.len() == i,
                forall|j: int| 0 <= j < i ==> out.deep_view()[j] == self.pairs()[j].0,
            decreases n - i,
        {
            let ghost before = out.deep_view();
            out.push(self.elements[i].0.clone());
            proof {
                assert(out.deep_view() =~= before.push(self.pairs()[i as int].0));
            }
            i += 1;
        }
        proof {
            assert(out.deep_view() =~= self.pairs().map_values(
                |e: (Seq<char>, PackageView)| e.0,
            ));
        }
        out
    }

    /// A snapshot of the listing as (key, package) rows, in order.
    pub fn to_vec(&self) -> (r: Vec<(String, Package)>)
        ensures
            listing_view(r@) == self.pairs(),
    {
        let mut out: Vec<(String, Package)> = Vec::new();
        let n = self.elements.len();
        let mut i: usize = 0;
        while i < n
            invariant
                0 <= i <= n,
                n == self.elements@.len(),
                out@.len() == i,
                forall|j: int| 0 <= j < i ==> listing_view(out@)[j] == self.pairs()[j],
            decreases n - i,
        {
            let k = self.elements[i].0.clone();
            let p = clone_package(&self.elements[i].1);
            out.push((k, p));
            i += 1;
        }
        proof {
            assert(listing_view(out@) =~= self.pairs());
        }
        out
    }

    /// Removes every entry for which the predicate holds; what stays keeps
    /// its order.
    pub fn retain<P: Fn(&String, &Package) -> bool>(&mut self, predicate: P)
        requires
            old(self).wf(),
            forall|k: &String, v: &Package| call_requires(predicate, (k, v)),
        ensures
            final(self).wf(),
            forall|i: int|
                0 <= i < final(self).pairs().len() ==> in_listing(
                    old(self).pairs(),
                    #[trigger] final(self).pairs()[i],
                ) && may_answer(
                    predicate,
                    final(self).pairs()[i].0,
                    final(self).pairs()[i].1,
                    false,
                ),
            forall|j: int|
                0 <= j < old(self).pairs().len() ==> in_listing(
                    final(self).pairs(),
                    #[trigger] old(self).pairs()[j],
                ) || may_answer(
                    predicate,
                    old(self).pairs()[j].0,
                    old(self).pairs()[j].1,
                    true,
                ),
    {
        let mut rest = self.elements.split_off(0);
        let ghost olds = listing_view(old(self).elements@);
        proof {
            assert(self.pairs() =~= Seq::<(Seq<char>, PackageView)>::empty());
        }
        let n = rest.len();
        let mut j: usize = 0;
        while j < n
            invariant
                0 <= j <= n,
                n == olds.len(),
                rest@.len() == n - j,
                forall|t: int| 0 <= t < n - j ==> #[trigger] listing_view(rest@)[t] == olds[j + t],
                forall|k: &String, v: &Package| call_requires(predicate, (k, v)),
                sorted_listing(olds),
                self.pairs().len() <= j,
                forall|i: int|
                    0 <= i < self.pairs().len() ==> in_listing_prefix(
                        olds,
                        j as int,
                        #[trigger] self.pairs()[i],
                    ) && may_answer(predicate, self.pairs()[i].0, self.pairs()[i].1, false),
                forall|j2: int|
                    0 <= j2 < j ==> in_listing(self.pairs(), #[trigger] olds[j2]) || may_answer(
                        predicate,
                        olds[j2].0,
                        olds[j2].1,
                        true,
                    ),
                sorted_listing(self.pairs()),
            decreases n - j,
        {
            let ghost rv = listing_view(rest@);
            let (k, v) = rest.remove(0);
            proof {
                assert(rv[0] == (k@, v.deep_view()));
                assert(rv[0] == olds[j as int]);
                assert(forall|t: int|
                    0 <= t < rv.len() - 1 ==> #[trigger] listing_view(rest@)[t] == rv[t + 1]);
            }
            let drop_it = predicate(&k, &v);
            if !drop_it {
                let ghost before = self.pairs();
                proof {
                    assert(may_answer(predicate, olds[j as int].0, olds[j as int].1, false));
                }
                self.elements.push((k, v));
                proof {
                    assert(self.pairs() =~= before.push(olds[j as int]));
                    assert(forall|i: int|
                        0 <= i < before.len() ==> #[trigger] self.pairs()[i] == before[i]);
                    assert(self.pairs()[before.len() as int] == olds[j as int]);
                    assert forall|i: int|
                        0 <= i < self.pairs().len() implies in_listing_prefix(
                        olds,
                        j + 1,
                        #[trigger] self.pairs()[i],
                    ) && may_answer(
                        predicate,
                        self.pairs()[i].0,
                        self.pairs()[i].1,
                        false,
                    ) by {
                        if i < before.len() {
                            assert(in_listing_prefix(olds, j as int, before[i]));
                            let j2 = choose|j2: int|
                                0 <= j2 < j && j2 < olds.len() && olds[j2] == before[i];
                            assert(0 <= j2 < j + 1 && j2 < olds.len() && olds[j2]
                                == self.pairs()[i]);
                        } else {
                            assert(self.pairs()[i] == olds[j as int]);
                        }
                    }
                    assert forall|j2: int|
                        0 <= j2 < j + 1 implies in_listing(
                        self.pairs(),
                        #[trigger] olds[j2],
                    ) || may_answer(predicate, olds[j2].0, olds[j2].1, true) by {
                        if j2 == j {
                            assert(self.pairs()[before.len() as int] == olds[j2]);
                        } else if in_listing(before, olds[j2]) {
                            let i = choose|i: int| 0 <= i < before.len() && before[i] == olds[j2];
                            assert(self.pairs()[i] == olds[j2]);
                        }
                    }
                    assert forall|a: int, b: int|
                        0 <= a < b < self.pairs().len() implies seq_lt(
                        self.pairs()[a].0,
                        self.pairs()[b].0,
                    ) by {
                        if b < self.pairs().len() - 1 {
                            assert(self.pairs()[a] == before[a]);
                            assert(self.pairs()[b] == before[b]);
                        } else {
                            assert(self.pairs()[b] == olds[j as int]);
                            if a < self.pairs().len() - 1 {
                                assert(self.pairs()[a] == before[a]);
                                assert(in_listing_prefix(olds, j as int, before[a]));
                                let j2 = choose|j2: int|
                                    0 <= j2 < j && j2 < olds.len() && olds[j2] == before[a];
                                assert(seq_lt(olds[j2].0, olds[j as int].0));
                            }
                        }
                    }
                }
            } else {
                proof {
                    assert(may_answer(predicate, olds[j as int].0, olds[j as int].1, true));
                    assert forall|i: int|
                        0 <= i < self.pairs().len() implies in_listing_prefix(
                        olds,
                        j + 1,
                        #[trigger] self.pairs()[i],
                    ) by {
                        assert(in_listing_prefix(olds, j as int, self.pairs()[i]));
                        let j2 = choose|j2: int|
                            0 <= j2 < j && j2 < olds.len() && olds[j2] == self.pairs()[i];
                        assert(0 <= j2 < j + 1 && j2 < olds.len() && olds[j2] == self.pairs()[i]);
                    }
                }
            }
            j += 1;
        }
    }

    /// Does any entry satisfy the predicate? One pass, stopping early.
    pub fn any<P: Fn(&String, &Package) -> bool>(&self, predicate: P) -> (r: bool)
        requires
            forall|k: &String, v: &Package| call_requires(predicate, (k, v)),
        ensures
            r ==> exists|j: int|
                0 <= j < self.pairs().len() && may_answer(
                    predicate,
                    self.pairs()[j].0,
                    self.pairs()[j].1,
                    true,
                ),
            !r ==> forall|j: int|
                0 <= j < self.pairs().len() ==> may_answer(
                    predicate,
                    self.pairs()[j].0,
                    self.pairs()[j].1,
                    false,
                ),
    {
        let n = self.elements.len();
        let mut j: usize = 0;
        while j < n
            invariant
                0 <= j <= n,
                n == self.elements@.len(),
                forall|k: &String, v: &Package| call_requires(predicate, (k, v)),
                forall|j2: int|
                    0 <= j2 < j ==> may_answer(
                        predicate,
                        self.pairs()[j2].0,
                        self.pairs()[j2].1,
                        false,
                    ),
            decreases n - j,
        {
            let hit = predicate(&self.elements[j].0, &self.elements[j].1);
            if hit {
                proof {
                    assert(may_answer(
                        predicate,
                        self.pairs()[j as int].0,
                        self.pairs()[j as int].1,
                        true,
                    ));
                }
                return true;
            }
            proof {
                assert(may_answer(
                    predicate,
                    self.pairs()[j as int].0,
                    self.pairs()[j as int].1,
                    false,
                ));
            }
            j += 1;
        }
        false
    }

    /// Single-pass search that stops at the first entry the predicate
    /// matches and rewrites that entry in place with `update`, keeping its
    /// key; says whether a match was found.
    pub fn any_mut<P: Fn(&String, &Package) -> bool, U: Fn(&String, &Package) -> Package>(
        &mut self,
        predicate: P,
        update: U,
    ) -> (r: bool)
        requires
            old(self).wf(),
            forall|k: &String, v: &Package| call_requires(predicate, (k, v)),
            forall|k: &String, v: &Package| call_requires(update, (k, v)),
        ensures
            final(self).wf(),
            !r ==> final(self).pairs() == old(self).pairs() && forall|j: int|
                0 <= j < old(self).pairs().len() ==> may_answer(
                    predicate,
                    old(self).pairs()[j].0,
                    old(self).pairs()[j].1,
                    false,
                ),
            r ==> exists|j: int|
                0 <= j < old(self).pairs().len() && may_answer(
                    predicate,
                    old(self).pairs()[j].0,
                    old(self).pairs()[j].1,
                    true,
                ) && (forall|j2: int|
                    0 <= j2 < j ==> may_answer(
                        predicate,
                        old(self).pairs()[j2].0,
                        old(self).pairs()[j2].1,
                        false,
                    )) && exists|nv: PackageView|
                    final(self).pairs() == old(self).pairs().update(
                        j,
                        (old(self).pairs()[j].0, nv),
                    ) && may_update(update, old(self).pairs()[j].0, old(self).pairs()[j].1, nv),
    {
        let n = self.elements.len();
        let mut j: usize = 0;
        while j < n
            invariant
                0 <= j <= n,
                n == self.elements@.len(),
                self.pairs() == old(self).pairs(),
                self.elements@ == old(self).elements@,
                sorted_listing(self.pairs()),
                forall|k: &String, v: &Package| call_requires(predicate, (k, v)),
                forall|k: &String, v: &Package| call_requires(update, (k, v)),
                forall|j2: int|
                    0 <= j2 < j ==> may_answer(
                        predicate,
                        self.pairs()[j2].0,
                        self.pairs()[j2].1,
                        false,
                    ),
            decreases n - j,
        {
            let hit = predicate(&self.elements[j].0, &self.elements[j].1);
            if hit {
                proof {
                    assert(may_answer(
                        predicate,
                        self.pairs()[j as int].0,
                        self.pairs()[j as int].1,
                        true,
                    ));
                }
                let ghost m = self.pairs();
                let mut e = self.elements.remove(j);
                proof {
                    assert(e.0@ == m[j as int].0);
                    assert(e.1.deep_view() == m[j as int].1);
                }
                let newp = update(&e.0, &e.1);
                let ghost nv = newp.deep_view();
                proof {
                    assert(may_update(update, m[j as int].0, m[j as int].1, nv));
                }
                e.1 = newp;
                self.elements.insert(j, e);
                proof {
                    let u = m.update(j as int, (m[j as int].0, nv));
                    assert(self.pairs() =~= u);
                    assert forall|a: int, b: int|
                        0 <= a < b < u.len() implies seq_lt(u[a].0, u[b].0) by {
                        if a != j {
                            assert(u[a] == m[a]);
                        }
                        if b != j {
                            assert(u[b] == m[b]);
                        }
                        assert(u[a].0 == m[a].0);
                        assert(u[b].0 == m[b].0);
                    }
                }
                return true;
            }
            proof {
                assert(may_answer(
                    predicate,
                    self.pairs()[j as int].0,
                    self.pairs()[j as int].1,
                    false,
                ));
            }
            j += 1;
        }
        false
    }

    /// The rows for which the predicate does not hold, as clones, in order.
    pub fn every<P: Fn(&String, &Package) -> bool>(&self, predicate: P) -> (r: Vec<
        (String, Package),
    >)
        requires
            forall|k: &String, v: &Package| call_requires(predicate, (k, v)),
        ensures
            forall|i: int|
                0 <= i < listing_view(r@).len() ==> in_listing(
                    self.pairs(),
                    #[trigger] listing_view(r@)[i],
                ) && may_answer(
                    predicate,
                    listing_view(r@)[i].0,
                    listing_view(r@)[i].1,
                    false,
                ),
            forall|j: int|
                0 <= j < self.pairs().len() ==> in_listing(
                    listing_view(r@),
                    #[trigger] self.pairs()[j],
                ) || may_answer(predicate, self.pairs()[j].0, self.pairs()[j].1, true),
    {
        let mut out: Vec<(String, Package)> = Vec::new();
        let n = self.elements.len();
        let mut j: usize = 0;
        proof {
            assert(listing_view(out@) =~= Seq::<(Seq<char>, PackageView)>::empty());
        }
        while j < n
            invariant
                0 <= j <= n,
                n == self.elements@.len(),
                forall|k: &String, v: &Package| call_requires(predicate, (k, v)),
                forall|i: int|
                    0 <= i < listing_view(out@).len() ==> in_listing(
                        self.pairs(),
                        #[trigger] listing_view(out@)[i],
                    ) && may_answer(
                        predicate,
                        listing_view(out@)[i].0,
                        listing_view(out@)[i].1,
                        false,
                    ),
                forall|j2: int|
                    0 <= j2 < j ==> in_listing(
                        listing_view(out@),
                        #[trigger] self.pairs()[j2],
                    ) || may_answer(predicate, self.pairs()[j2].0, self.pairs()[j2].1, true),
            decreases n - j,
        {
            let hit = predicate(&self.elements[j].0, &self.elements[j].1);
            if !hit {
                let ghost before = listing_view(out@);
                let k = self.elements[j].0.clone();
                let p = clone_package(&self.elements[j].1);
                out.push((k, p));
                proof {
                    assert(may_answer(
                        predicate,
                        self.pairs()[j as int].0,
                        self.pairs()[j as int].1,
                        false,
                    ));
                    assert(listing_view(out@) =~= before.push(self.pairs()[j as int]));
                    assert(forall|i: int|
                        0 <= i < before.len() ==> #[trigger] listing_view(out@)[i] == before[i]);
                    assert(listing_view(out@)[before.len() as int] == self.pairs()[j as int]);
                    assert forall|i: int|
                        0 <= i < listing_view(out@).len() implies in_listing(
                        self.pairs(),
                        #[trigger] listing_view(out@)[i],
                    ) by {
                        if i < before.len() {
                            assert(in_listing(self.pairs(), before[i]));
                        } else {
                            assert(listing_view(out@)[i] == self.pairs()[j as int]);
                        }
                    }
                    assert forall|j2: int|
                        0 <= j2 < j + 1 implies in_listing(
                        listing_view(out@),
                        #[trigger] self.pairs()[j2],
                    ) || may_answer(predicate, self.pairs()[j2].0, self.pairs()[j2].1, true) by {
                        if j2 == j {
                            assert(listing_view(out@)[before.len() as int] == self.pairs()[j2]);
                        } else if in_listing(before, self.pairs()[j2]) {
                            let i = choose|i: int|
                                0 <= i < before.len() && before[i] == self.pairs()[j2];
                            assert(listing_view(out@)[i] == self.pairs()[j2]);
                        }
                    }
                }
            } else {
                proof {
                    assert(may_answer(
                        predicate,
                        self.pairs()[j as int].0,
                        self.pairs()[j as int].1,
                        true,
                    ));
                }
            }
            j += 1;
        }
        out
    }

    /// Calls the function once for each row, in order.
    pub fn for_each<P: Fn(&String, &Package)>(&self, action: P)
        requires
            forall|k: &String, v: &Package| call_requires(action, (k, v)),
    {
        let n = self.elements.len();
        let mut j: usize = 0;
        while j < n
            invariant
                0 <= j <= n,
                n == self.elements@.len(),
                forall|k: &String, v: &Package| call_requires(action, (k, v)),
            decreases n - j,
        {
            action(&self.elements[j].0, &self.elements[j].1);
            j += 1;
        }
    }

    /// Applies the version inferencer to every package: each one whose
    /// canonical store path embeds its key gets that embedded version; the
    /// others keep what they had.
    pub fn infer_versions(&mut self)
        requires
            old(self).wf(),
        ensures
            final(self).wf(),
            final(self).pairs().len() == old(self).pairs().len(),
            forall|t: int|
                0 <= t < old(self).pairs().len() ==> #[trigger] final(self).pairs()[t] == (
                    old(self).pairs()[t].0,
                    enrich_version(old(self).pairs()[t].0, old(self).pairs()[t].1),
                ),
    {
        let n = self.elements.len();
        let mut i: usize = 0;
        while i < n
            invariant
                0 <= i <= n,
                n == self.elements@.len(),
                self.pairs().len() == old(self).pairs().len(),
                n == old(self).pairs().len(),
                forall|t: int|
                    0 <= t < i ==> #[trigger] self.pairs()[t] == (
                        old(self).pairs()[t].0,
                        enrich_version(old(self).pairs()[t].0, old(self).pairs()[t].1),
                    ),
                forall|t: int| i <= t < n ==> #[trigger] self.pairs()[t] == old(self).pairs()[t],
                sorted_listing(self.pairs()),
            decreases n - i,
        {
            let newv: Option<String> = match select_store_path(&self.elements[i].1.store_paths) {
                Some(path) => get_version(path.as_str(), self.elements[i].0.as_str()),
                None => None,
            };
            let ghost m = self.pairs();
            match newv {
                Some(v) => {
                    let mut e = self.elements.remove(i);
                    e.1.version = v;
                    self.elements.insert(i, e);
                    proof {
                        let u = m.update(
                            i as int,
                            (m[i as int].0, enrich_version(m[i as int].0, m[i as int].1)),
                        );
                        assert(self.pairs() =~= u);
                        assert forall|a: int, b: int|
                            0 <= a < b < u.len() implies seq_lt(u[a].0, u[b].0) by {
                            if a != i {
                                assert(u[a] == m[a]);
                            }
                            if b != i {
                                assert(u[b] == m[b]);
                            }
                            assert(u[a].0 == m[a].0);
                            assert(u[b].0 == m[b].0);
                        }
                    }
                },
                None => {
                    proof {
                        assert(self.pairs()[i as int] == (
                            m[i as int].0,
                            enrich_version(m[i as int].0, m[i as int].1),
                        ));
                    }
                },
            }
            i += 1;
        }
    }

    /// Records the installed size of the package under `key`, when the
    /// listing has it; says whether it did.
    pub fn set_installed_size(&mut self, key: &str, size: u64) -> (r: bool)
        requires
            old(self).wf(),
        ensures
            final(self).wf(),
            !r ==> final(self).pairs() == old(self).pairs() && forall|j: int|
                0 <= j < old(self).pairs().len() ==> #[trigger] old(self).pairs()[j].0 != key@,
            r ==> exists|j: int|
                0 <= j < old(self).pairs().len() && #[trigger] old(self).pairs()[j].0 == key@
                    && final(self).pairs() == old(self).pairs().update(
                    j,
                    (key@, with_size(old(self).pairs()[j].1, size)),
                ),
    {
        let n = self.elements.len();
        let mut j: usize = 0;
        while j < n
            invariant
                0 <= j <= n,
                n == self.elements@.len(),
                self.pairs() == old(self).pairs(),
                self.elements@ == old(self).elements@,
                sorted_listing(self.pairs()),
                forall|j2: int| 0 <= j2 < j ==> #[trigger] self.pairs()[j2].0 != key@,
            decreases n - j,
        {
            if crate::strutil::str_eq(self.elements[j].0.as_str(), key) {
                let ghost m = self.pairs();
                let mut e = self.elements.remove(j);
                e.1.installed_size = Some(size);
                self.elements.insert(j, e);
                proof {
                    let u = m.update(j as int, (key@, with_size(m[j as int].1, size)));
                    assert(self.pairs() =~= u);
                    assert forall|a: int, b: int|
                        0 <= a < b < u.len() implies seq_lt(u[a].0, u[b].0) by {
                        if a != j {
                            assert(u[a] == m[a]);
                        }
                        if b != j {
                            assert(u[b] == m[b]);
                        }
                        assert(u[a].0 == m[a].0);
                        assert(u[b].0 == m[b].0);
                    }
                    assert(old(self).pairs()[j as int].0 == key@);
                    assert(self.pairs() == old(self).pairs().update(
                        j as int,
                        (key@, with_size(old(self).pairs()[j as int].1, size)),
                    ));
                }
                return true;
            }
            j += 1;
        }
        false
    }

    /// Inserts (or replaces) one package, keeping the keys ascending.
    fn upsert(&mut self, key: String, pack: Package)
        requires
            old(self).wf(),
        ensures
            final(self).wf(),
            final(self).pairs() == upsert_listing(old(self).pairs(), key@, pack.deep_view()),
    {
        let n = self.elements.len();
        let mut i: usize = 0;
        while i < n && str_lt(self.elements[i].0.as_str(), key.as_str())
            invariant
                0 <= i <= n,
                n == self.elements.len(),
                forall|j: int| 0 <= j < i ==> seq_lt(#[trigger] self.pairs()[j].0, key@),
            decreases n - i,
        {
            i += 1;
        }
        let ghost m = self.pairs();
        let ghost kk = key@;
        let ghost vv = pack.deep_view();
        proof {
            lemma_upsert_listing_at(m, kk, vv, i as int);
        }
        let matched = i < n && crate::strutil::str_eq(self.elements[i].0.as_str(), key.as_str());
        if matched {
            proof {
                assert(m[i as int].0 == kk);
            }
            self.elements[i] = (key, pack);
            proof {
                let u = m.update(i as int, (kk, vv));
                assert(self.pairs() =~= u);
                assert forall|a: int, b: int|
                    0 <= a < b < u.len() implies seq_lt(u[a].0, u[b].0) by {
                    assert(u[a].0 == m[a].0);
                    assert(u[b].0 == m[b].0);
                }
            }
        } else {
            proof {
                if i < n {
                    assert(m[i as int].0 != kk);
                }
                if i < m.len() && !seq_lt(kk, m[i as int].0) {
                    lemma_seq_lt_connected(m[i as int].0, kk);
                }
            }
            self.elements.insert(i, (key, pack));
            proof {
                let u = m.take(i as int) + seq![(kk, vv)] + m.skip(i as int);
                assert(self.pairs() =~= u);
                assert forall|a: int, b: int|
                    0 <= a < b < u.len() implies seq_lt(u[a].0, u[b].0) by {
                    if a < i {
                        assert(u[a] == m[a]);
                    } else if a > i {
                        assert(u[a] == m[a - 1]);
                    }
                    if b < i {
                        assert(u[b] == m[b]);
                    } else if b > i {
                        assert(u[b] == m[b - 1]);
                    }
                    if a == i && b > i {
                        assert(seq_lt(kk, m[b - 1].0)) by {
                            if b - 1 > i {
                                lemma_seq_lt_trans(kk, m[i as int].0, m[b - 1].0);
                            }
                        }
                    }
                    if a < i && b == i {
                        assert(seq_lt(m[a].0, kk));
                    }
                }
            }
        }
    }
}

} // verus!
