//! The sample library tree of the browser: which folders are worth showing,
//! which match a search, and in what order entries are listed.

use std::path::PathBuf;
use vstd::prelude::*;
use vstd::string::StringSliceAdditionalSpecFns;
use vstd::utf8::encode_utf8;

verus! {

/// A file or folder entry in the sample library tree.
pub struct LibEntry {
    pub name: String,
    pub path: PathBuf,
    pub children: Vec<LibEntry>,
    pub is_dir: bool,
}

// ---------------------------------------------------------------------------
// Model
// ---------------------------------------------------------------------------

/// Some entry among `entries` is a file (only WAV files are kept in the tree),
/// directly or in a folder below.
pub open spec fn any_wav(entries: Seq<LibEntry>) -> bool
    decreases entries,
{
    if entries.len() == 0 {
        false
    } else {
        let e = entries[0];
        (!e.is_dir || any_wav(e.children@)) || any_wav(entries.subrange(1, entries.len() as int))
    }
}

/// `hay` holds `pat` as a run of consecutive bytes.
pub open spec fn bytes_contain(hay: Seq<u8>, pat: Seq<u8>) -> bool {
    exists|i: int| 0 <= i && i + pat.len() <= hay.len() && #[trigger] hay.subrange(i, i + pat.len()) == pat
}

/// The lowercase form of a string, as `str::to_lowercase` computes it.
pub uninterp spec fn lowercase(s: Seq<char>) -> Seq<char>;

/// A file name matches a search filter when its lowercase form contains the filter.
pub open spec fn name_matches_spec(name: Seq<char>, filter: Seq<char>) -> bool {
    bytes_contain(encode_utf8(lowercase(name)), encode_utf8(filter))
}

/// Some file among `entries`, or below a folder among them, matches the filter.
pub open spec fn any_match(entries: Seq<LibEntry>, filter: Seq<char>) -> bool
    decreases entries,
{
    if entries.len() == 0 {
        false
    } else {
        let e = entries[0];
        (if e.is_dir {
            any_match(e.children@, filter)
        } else {
            name_matches_spec(e.name@, filter)
        }) || any_match(entries.subrange(1, entries.len() as int), filter)
    }
}

/// Whether `a` comes no later than `b` in the order of byte strings (a prefix
/// first, else by the first byte that differs).
pub open spec fn lex_le(a: Seq<u8>, b: Seq<u8>) -> bool
    decreases a.len(),
{
    if a.len() == 0 {
        true
    } else if b.len() == 0 {
        false
    } else if a[0] != b[0] {
        a[0] < b[0]
    } else {
        lex_le(a.drop_first(), b.drop_first())
    }
}

/// The key entries are listed by: the UTF-8 bytes of the lowercase name.
pub open spec fn entry_key(e: LibEntry) -> Seq<u8> {
    encode_utf8(lowercase(e.name@))
}

/// `s` with `x` inserted after every entry whose key is not greater than its.
pub open spec fn insert_by_name(s: Seq<LibEntry>, x: LibEntry) -> Seq<LibEntry>
    decreases s.len(),
{
    if s.len() == 0 {
        seq![x]
    } else if lex_le(entry_key(s.last()), entry_key(x)) {
        s.push(x)
    } else {
        insert_by_name(s.drop_last(), x).push(s.last())
    }
}

/// `s` sorted by lowercase name, entries with equal keys keeping their order.
pub open spec fn sort_by_name(s: Seq<LibEntry>) -> Seq<LibEntry>
    decreases s.len(),
{
    if s.len() == 0 {
        s
    } else {
        insert_by_name(sort_by_name(s.drop_last()), s.last())
    }
}

// ---------------------------------------------------------------------------
// Laws of the listing order
// ---------------------------------------------------------------------------

proof fn lemma_lex_le_refl(a: Seq<u8>)
    ensures
        lex_le(a, a),
    decreases a.len(),
{
    if a.len() > 0 {
        lemma_lex_le_refl(a.drop_first());
    }
}

proof fn lemma_lex_le_total(a: Seq<u8>, b: Seq<u8>)
    ensures
        lex_le(a, b) || lex_le(b, a),
    decreases a.len(),
{
    if a.len() > 0 && b.len() > 0 && a[0] == b[0] {
        lemma_lex_le_total(a.drop_first(), b.drop_first());
    }
}

proof fn lemma_lex_le_trans(a: Seq<u8>, b: Seq<u8>, c: Seq<u8>)
    requires
        lex_le(a, b),
        lex_le(b, c),
    ensures
        lex_le(a, c),
    decreases a.len(),
{
    if a.len() > 0 && b.len() > 0 && c.len() > 0 && a[0] == b[0] && b[0] == c[0] {
        lemma_lex_le_trans(a.drop_first(), b.drop_first(), c.drop_first());
    }
}

/// Entries in the order of their keys.
pub open spec fn names_sorted(s: Seq<LibEntry>) -> bool {
    forall|i: int, j: int|
        0 <= i < j < s.len() ==> lex_le(entry_key(#[trigger] s[i]), entry_key(#[trigger] s[j]))
}

proof fn lemma_insert_by_name(s: Seq<LibEntry>, x: LibEntry)
    requires
        names_sorted(s),
    ensures
        names_sorted(insert_by_name(s, x)),
        insert_by_name(s, x).to_multiset() == s.to_multiset().insert(x),
    decreases s.len(),
{
    broadcast use vstd::seq_lib::group_to_multiset_ensures;

    if s.len() == 0 {
        assert(seq![x] =~= Seq::<LibEntry>::empty().push(x));
    } else if lex_le(entry_key(s.last()), entry_key(x)) {
        let r = s.push(x);
        assert forall|i: int, j: int| 0 <= i < j < r.len() implies lex_le(
            entry_key(#[trigger] r[i]),
            entry_key(#[trigger] r[j]),
        ) by {
            if j == s.len() && i < s.len() - 1 {
                lemma_lex_le_trans(entry_key(s[i]), entry_key(s.last()), entry_key(x));
            }
        }
    } else {
        let d = s.drop_last();
        let l = s.last();
        assert(names_sorted(d));
        lemma_insert_by_name(d, x);
        let r = insert_by_name(d, x);
        assert(s =~= d.push(l));
        lemma_lex_le_total(entry_key(l), entry_key(x));
        assert forall|i: int| 0 <= i < r.len() implies lex_le(entry_key(#[trigger] r[i]), entry_key(l)) by {
            assert(r.to_multiset().contains(r[i]));
            assert(d.to_multiset().insert(x).contains(r[i]));
            if r[i] != x {
                assert(d.to_multiset().contains(r[i]));
                assert(d.contains(r[i]));
                let k = choose|k: int| 0 <= k < d.len() && d[k] == r[i];
                assert(s[k] == d[k]);
            }
        }
        let rl = r.push(l);
        assert forall|i: int, j: int| 0 <= i < j < rl.len() implies lex_le(
            entry_key(#[trigger] rl[i]),
            entry_key(#[trigger] rl[j]),
        ) by {
            if j == r.len() {
                assert(rl[i] == r[i]);
            } else {
                assert(rl[i] == r[i] && rl[j] == r[j]);
            }
        }
    }
}

/// The listing is in key order and holds the same entries.
pub proof fn lemma_sort_by_name(s: Seq<LibEntry>)
    ensures
        names_sorted(sort_by_name(s)),
        sort_by_name(s).to_multiset() == s.to_multiset(),
    decreases s.len(),
{
    broadcast use vstd::seq_lib::group_to_multiset_ensures;

    if s.len() > 0 {
        lemma_sort_by_name(s.drop_last());
        lemma_insert_by_name(sort_by_name(s.drop_last()), s.last());
        assert(s =~= s.drop_last().push(s.last()));
    }
}

/// The entries of `s` whose key is `k`, in their order in `s`.
pub open spec fn with_key(s: Seq<LibEntry>, k: Seq<u8>) -> Seq<LibEntry> {
    s.filter(|e: LibEntry| entry_key(e) == k)
}

proof fn lemma_with_key_push(s: Seq<LibEntry>, x: LibEntry, k: Seq<u8>)
    ensures
        with_key(s.push(x), k) == if entry_key(x) == k {
            with_key(s, k).push(x)
        } else {
            with_key(s, k)
        },
{
    reveal(Seq::filter);
    assert(s.push(x).drop_last() =~= s);
}

proof fn lemma_insert_with_key(s: Seq<LibEntry>, x: LibEntry, k: Seq<u8>)
    ensures
        with_key(insert_by_name(s, x), k) == if entry_key(x) == k {
            with_key(s, k).push(x)
        } else {
            with_key(s, k)
        },
    decreases s.len(),
{
    if s.len() == 0 {
        lemma_with_key_push(s, x, k);
        assert(seq![x] =~= s.push(x));
    } else if lex_le(entry_key(s.last()), entry_key(x)) {
        lemma_with_key_push(s, x, k);
    } else {
        let d = s.drop_last();
        let l = s.last();
        assert(s =~= d.push(l));
        lemma_lex_le_refl(entry_key(x));
        lemma_insert_with_key(d, x, k);
        lemma_with_key_push(insert_by_name(d, x), l, k);
        lemma_with_key_push(d, l, k);
        if entry_key(x) == k {
            lemma_with_key_push(with_key(d, k), x, k);
        }
    }
}

/// Entries whose lowercase names are equal keep their order in the listing.
pub proof fn lemma_sort_by_name_stable(s: Seq<LibEntry>, k: Seq<u8>)
    ensures
        with_key(sort_by_name(s), k) == with_key(s, k),
    decreases s.len(),
{
    if s.len() > 0 {
        let d = s.drop_last();
        lemma_sort_by_name_stable(d, k);
        lemma_insert_with_key(sort_by_name(d), s.last(), k);
        lemma_with_key_push(d, s.last(), k);
        assert(s =~= d.push(s.last()));
    }
}

// ---------------------------------------------------------------------------
// Executable code
// ---------------------------------------------------------------------------

/// `str::to_lowercase`: the lowercase form of the string. What that form is
/// (Unicode's case mapping) is not stated, only that it depends on the string
/// alone.
#[verifier::external_body]
fn to_lowercase(s: &str) -> (r: String)
    ensures
        r@ == lowercase(s@),
{
    s.to_lowercase()
}

/// Whether `hay` contains `pat` (as `str::contains` does for a string pattern).
pub fn str_contains(hay: &str, pat: &str) -> (r: bool)
    ensures
        r == bytes_contain(hay.spec_bytes(), pat.spec_bytes()),
{
    let h = hay.as_bytes();
    let p = pat.as_bytes();
    if p.len() > h.len() {
        return false;
    }
    if p.len() == 0 {
        assert(hay.spec_bytes().subrange(0, 0int + pat.spec_bytes().len()) =~= pat.spec_bytes());
        return true;
    }
    let last = h.len() - p.len();
    let mut i: usize = 0;
    while i <= last
        invariant
            h@ == hay.spec_bytes(),
            p@ == pat.spec_bytes(),
            last == h@.len() - p@.len(),
            p@.len() <= h@.len(),
            i <= last + 1,
            forall|k: int| 0 <= k < i ==> #[trigger] h@.subrange(k, k + p@.len()) != p@,
        decreases last + 1 - i,
    {
        let mut j: usize = 0;
        while j < p.len() && h[i + j] == p[j]
            invariant
                i <= last,
                h@ == hay.spec_bytes(),
                p@ == pat.spec_bytes(),
                h@.len() == h.len(),
                last + p@.len() == h@.len(),
                j <= p@.len(),
                forall|m: int| 0 <= m < j ==> h@[i + m] == p@[m],
            decreases p@.len() - j,
        {
            j = j + 1;
        }
        if j == p.len() {
            assert(h@.subrange(i as int, i + p@.len()) =~= p@);
            return true;
        }
        assert(h@.subrange(i as int, i + p@.len())[j as int] != p@[j as int]);
        i = i + 1;
    }
    assert forall|k: int| 0 <= k && k + p@.len() <= h@.len() implies #[trigger] h@.subrange(
        k,
        k + p@.len(),
    ) != p@ by {
        assert(k < i);
    }
    false
}

/// Whether a file name matches a search filter: its lowercase form contains it.
pub fn name_matches(lower_name: &str, filter: &str) -> (r: bool)
    ensures
        r == bytes_contain(encode_utf8(lower_name@), encode_utf8(filter@)),
{
    str_contains(lower_name, filter)
}

/// Whether any entry is a file, directly or below (folders without WAV files
/// are left out of the tree).
pub fn has_any_wav(entries: &Vec<LibEntry>) -> (r: bool)
    ensures
        r == any_wav(entries@),
    decreases entries@,
{
    let mut i: usize = 0;
    assert(entries@.subrange(0, entries@.len() as int) =~= entries@);
    while i < entries.len()
        invariant
            i <= entries.len(),
            any_wav(entries@) == any_wav(entries@.subrange(i as int, entries@.len() as int)),
        decreases entries.len() - i,
    {
        let ghost rest = entries@.subrange(i as int, entries@.len() as int);
        assert(rest[0] == entries@[i as int]);
        assert(rest.subrange(1, rest.len() as int) =~= entries@.subrange(i + 1, entries@.len() as int));
        let e = &entries[i];
        if !e.is_dir {
            return true;
        }
        assert(decreases_to!(entries@ => entries@[i as int]));
        if has_any_wav(&e.children) {
            return true;
        }
        i = i + 1;
    }
    assert(entries@.subrange(i as int, entries@.len() as int).len() == 0);
    false
}

/// Whether a file extension names a WAV file, in any letter case.
pub fn is_wav_extension(ext: &str) -> (r: bool)
    ensures
        r == (lowercase(ext@) == "wav"@),
{
    let lower = to_lowercase(ext);
    let wav = "wav".to_owned();
    lower == wav
}

/// Whether any file among the children of `entry`, or below them, matches
/// the (lowercase) filter.
pub fn has_matching_descendant(entry: &LibEntry, filter: &str) -> (r: bool)
    ensures
        r == any_match(entry.children@, filter@),
    decreases entry,
{
    let children = &entry.children;
    let mut i: usize = 0;
    assert(children@.subrange(0, children@.len() as int) =~= children@);
    while i < children.len()
        invariant
            i <= children.len(),
            children == &entry.children,
            any_match(children@, filter@) == any_match(
                children@.subrange(i as int, children@.len() as int),
                filter@,
            ),
        decreases children.len() - i,
    {
        let ghost rest = children@.subrange(i as int, children@.len() as int);
        assert(rest[0] == children@[i as int]);
        assert(rest.subrange(1, rest.len() as int) =~= children@.subrange(i + 1, children@.len() as int));
        let child = &children[i];
        let found = if child.is_dir {
            assert(decreases_to!(entry => child));
            has_matching_descendant(child, filter)
        } else {
            let lower = to_lowercase(child.name.as_str());
            name_matches(lower.as_str(), filter)
        };
        if found {
            return true;
        }
        i = i + 1;
    }
    false
}

/// Whether `a` comes no later than `b` in byte-string order.
fn bytes_le(a: &[u8], b: &[u8]) -> (r: bool)
    ensures
        r == lex_le(a@, b@),
{
    let mut k: usize = 0;
    assert(a@.skip(0) =~= a@);
    assert(b@.skip(0) =~= b@);
    while k < a.len() && k < b.len() && a[k] == b[k]
        invariant
            k <= a@.len(),
            k <= b@.len(),
            lex_le(a@, b@) == lex_le(a@.skip(k as int), b@.skip(k as int)),
        decreases a@.len() - k,
    {
        assert(a@.skip(k as int).drop_first() =~= a@.skip(k + 1));
        assert(b@.skip(k as int).drop_first() =~= b@.skip(k + 1));
        k = k + 1;
    }
    if k == a.len() {
        return true;
    }
    if k == b.len() {
        return false;
    }
    a[k] < b[k]
}

fn insert_entry(v: &mut Vec<(String, LibEntry)>, key: String, x: LibEntry)
    requires
        key@ == lowercase(x.name@),
        forall|i: int| 0 <= i < old(v)@.len() ==> (#[trigger] old(v)@[i]).0@ == lowercase(old(v)@[i].1.name@),
    ensures
        final(v)@.map_values(|p: (String, LibEntry)| p.1) == insert_by_name(
            old(v)@.map_values(|p: (String, LibEntry)| p.1),
            x,
        ),
        forall|i: int| 0 <= i < final(v)@.len() ==> (#[trigger] final(v)@[i]).0@ == lowercase(final(v)@[i].1.name@),
    decreases old(v)@.len(),
{
    let ghost olds = v@.map_values(|p: (String, LibEntry)| p.1);
    if v.len() == 0 {
        v.push((key, x));
        assert(v@.map_values(|p: (String, LibEntry)| p.1) =~= seq![x]);
        return ;
    }
    let n = v.len();
    let le = bytes_le(v[n - 1].0.as_str().as_bytes(), key.as_str().as_bytes());
    assert(olds.last() == v@[n - 1].1);
    if le {
        v.push((key, x));
        assert(v@.map_values(|p: (String, LibEntry)| p.1) =~= olds.push(x));
        return ;
    }
    let last = v.pop().unwrap();
    assert(v@.map_values(|p: (String, LibEntry)| p.1) =~= olds.drop_last());
    insert_entry(v, key, x);
    let ghost mid = v@.map_values(|p: (String, LibEntry)| p.1);
    v.push(last);
    assert(v@.map_values(|p: (String, LibEntry)| p.1) =~= mid.push(olds.last()));
}

/// List entries by lowercase name; entries whose lowercase names are equal
/// keep their order.
pub fn sort_entries(entries: Vec<LibEntry>) -> (r: Vec<LibEntry>)
    ensures
        r@ == sort_by_name(entries@),
{
    let ghost orig = entries@;
    let mut keyed: Vec<(String, LibEntry)> = Vec::new();
    let mut rest = entries;
    let n = rest.len();
    let mut i: usize = 0;
    while i < n
        invariant
            n == orig.len(),
            i <= n,
            rest@ == orig.subrange(i as int, n as int),
            keyed@.map_values(|p: (String, LibEntry)| p.1) == sort_by_name(orig.take(i as int)),
            forall|k: int| 0 <= k < keyed@.len() ==> (#[trigger] keyed@[k]).0@ == lowercase(keyed@[k].1.name@),
        decreases n - i,
    {
        let x = rest.remove(0);
        assert(x == orig[i as int]);
        assert(rest@ =~= orig.subrange(i + 1, n as int));
        let key = to_lowercase(x.name.as_str());
        insert_entry(&mut keyed, key, x);
        assert(orig.take(i + 1).drop_last() =~= orig.take(i as int));
        i = i + 1;
    }
    assert(orig.take(n as int) =~= orig);
    let ghost sorted = sort_by_name(orig);
    let mut out: Vec<LibEntry> = Vec::new();
    let m = keyed.len();
    let mut j: usize = 0;
    while j < m
        invariant
            m == sorted.len(),
            j <= m,
            keyed@.map_values(|p: (String, LibEntry)| p.1) == sorted.subrange(j as int, m as int),
            out@ == sorted.take(j as int),
        decreases m - j,
    {
        let ghost before = keyed@;
        assert(before.map_values(|p: (String, LibEntry)| p.1).len() == m - j);
        let p = keyed.remove(0);
        assert(p == before[0]);
        assert(p.1 == before.map_values(|p: (String, LibEntry)| p.1)[0]);
        assert(keyed@ =~= before.subrange(1, before.len() as int));
        assert(keyed@.map_values(|p: (String, LibEntry)| p.1) =~= before.map_values(
            |p: (String, LibEntry)| p.1,
        ).subrange(1, before.len() as int));
        assert(keyed@.map_values(|p: (String, LibEntry)| p.1) =~= sorted.subrange(j + 1, m as int));
        out.push(p.1);
        assert(out@ =~= sorted.take(j + 1));
        j = j + 1;
    }
    assert(out@ =~= sorted);
    out
}

/// The listing of a folder: its sub-folders by name, then its files by name.
pub fn order_entries(dirs: Vec<LibEntry>, files: Vec<LibEntry>) -> (r: Vec<LibEntry>)
    ensures
        r@ == sort_by_name(dirs@) + sort_by_name(files@),
{
    let mut sorted_dirs = sort_entries(dirs);
    let mut sorted_files = sort_entries(files);
    sorted_dirs.append(&mut sorted_files);
    sorted_dirs
}

} // verus!
