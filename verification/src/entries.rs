//! Preparing the files of a source directory for the image: Level 1 names, then
//! directory order (by name bytes, stable), and the check that the image can be
//! addressed at all.

use vstd::prelude::*;
use vstd::utf8::encode_utf8;
use crate::name::{sanitize_iso_name, iso_name_of, str_to_uppercase, law_iso_name_form};
use crate::image::{
    image_fits, data_sectors, file_sectors, total_sectors, lemma_data_sectors_step,
    lemma_data_sectors_mono,
};
use crate::bytes::sectors_for;
use crate::image::{root_directory, entry_name};
use crate::image_laws::law_small_directory_fits;

verus! {

/// A file as the library sees it: its name's characters and its contents.
pub open spec fn entry_view(e: (String, Vec<u8>)) -> (Seq<char>, Seq<u8>) {
    (e.0@, e.1@)
}

/// The views of a sequence of files.
pub open spec fn entries_view(s: Seq<(String, Vec<u8>)>) -> Seq<(Seq<char>, Seq<u8>)> {
    s.map_values(|e: (String, Vec<u8>)| entry_view(e))
}

/// The key by which files are ordered: the UTF-8 bytes of the name.
pub open spec fn name_key(e: (Seq<char>, Seq<u8>)) -> Seq<u8> {
    encode_utf8(e.0)
}

/// Strict lexicographic order on byte strings (a proper prefix comes first), the order of
/// `str` and `String`.
pub open spec fn bytes_lt(a: Seq<u8>, b: Seq<u8>) -> bool
    decreases a.len(),
{
    if b.len() == 0 {
        false
    } else if a.len() == 0 {
        true
    } else if a[0] != b[0] {
        a[0] < b[0]
    } else {
        bytes_lt(a.drop_first(), b.drop_first())
    }
}

/// Where a stable insertion puts `e` into `s`: after the last element whose key is not
/// greater than that of `e`, searching from the end.
pub open spec fn insert_pos(s: Seq<(Seq<char>, Seq<u8>)>, e: (Seq<char>, Seq<u8>)) -> int
    decreases s.len(),
{
    if s.len() == 0 {
        0
    } else if bytes_lt(name_key(e), name_key(s.last())) {
        insert_pos(s.drop_last(), e)
    } else {
        s.len() as int
    }
}

/// `s` sorted by name key, stably: equal keys keep their order.
pub open spec fn sort_by_name(s: Seq<(Seq<char>, Seq<u8>)>) -> Seq<(Seq<char>, Seq<u8>)>
    decreases s.len(),
{
    if s.len() == 0 {
        s
    } else {
        let sorted = sort_by_name(s.drop_last());
        sorted.insert(insert_pos(sorted, s.last()), s.last())
    }
}

/// Each file under its Level 1 name.
pub open spec fn renamed(s: Seq<(Seq<char>, Seq<u8>)>) -> Seq<(Seq<char>, Seq<u8>)> {
    s.map_values(|e: (Seq<char>, Seq<u8>)| (iso_name_of(str_to_uppercase(e.0)), e.1))
}

pub proof fn lemma_insert_pos(s: Seq<(Seq<char>, Seq<u8>)>, e: (Seq<char>, Seq<u8>))
    ensures
        0 <= insert_pos(s, e) <= s.len(),
        forall|k: int|
            insert_pos(s, e) <= k < s.len() ==> bytes_lt(name_key(e), #[trigger] name_key(s[k])),
        insert_pos(s, e) > 0 ==> !bytes_lt(name_key(e), name_key(s[insert_pos(s, e) - 1])),
    decreases s.len(),
{
    if s.len() > 0 && bytes_lt(name_key(e), name_key(s.last())) {
        let p = s.drop_last();
        lemma_insert_pos(p, e);
        assert forall|k: int| insert_pos(s, e) <= k < s.len() implies bytes_lt(
            name_key(e),
            #[trigger] name_key(s[k]),
        ) by {
            if k < s.len() - 1 {
                assert(s[k] == p[k]);
            }
        }
        if insert_pos(s, e) > 0 {
            assert(s[insert_pos(s, e) - 1] == p[insert_pos(s, e) - 1]);
        }
    }
}

proof fn lemma_insert_pos_prefix(s: Seq<(Seq<char>, Seq<u8>)>, e: (Seq<char>, Seq<u8>), j: int)
    requires
        0 <= j <= s.len(),
        forall|k: int| j <= k < s.len() ==> bytes_lt(name_key(e), #[trigger] name_key(s[k])),
    ensures
        insert_pos(s, e) == insert_pos(s.take(j), e),
    decreases s.len() - j,
{
    if j < s.len() {
        let p = s.drop_last();
        assert forall|k: int| j <= k < p.len() implies bytes_lt(name_key(e), #[trigger] name_key(p[k])) by {
            assert(p[k] == s[k]);
        }
        lemma_insert_pos_prefix(p, e, j);
        assert(p.take(j) =~= s.take(j));
    } else {
        assert(s.take(j) =~= s);
    }
}

/// Compares two byte strings in the order of `bytes_lt`.
pub fn bytes_less(a: &[u8], b: &[u8]) -> (lt: bool)
    ensures
        lt == bytes_lt(a@, b@),
{
    let mut i: usize = 0;
    assert(a@.skip(0) =~= a@ && b@.skip(0) =~= b@);
    while i < a.len() && i < b.len() && a[i] == b[i]
        invariant
            i <= a@.len(),
            i <= b@.len(),
            bytes_lt(a@, b@) == bytes_lt(a@.skip(i as int), b@.skip(i as int)),
        decreases a@.len() - i,
    {
        assert(a@.skip(i as int).drop_first() =~= a@.skip(i + 1));
        assert(b@.skip(i as int).drop_first() =~= b@.skip(i + 1));
        i = i + 1;
    }
    if i == b.len() {
        false
    } else if i == a.len() {
        true
    } else {
        a[i] < b[i]
    }
}

/// Sorts files by the UTF-8 bytes of their names; files with equal names keep their order.
pub fn sort_entries(v: &mut Vec<(String, Vec<u8>)>)
    ensures
        entries_view(final(v)@) == sort_by_name(entries_view(old(v)@)),
{
    let ghost input = entries_view(old(v)@);
    let mut rest: Vec<(String, Vec<u8>)> = Vec::new();
    std::mem::swap(v, &mut rest);
    // `rest` now holds the input, `v` is empty; move the elements back one at a time.
    let ghost orig = rest@;
    let n = rest.len();
    let mut i: usize = 0;
    assert(input.take(0) =~= Seq::<(Seq<char>, Seq<u8>)>::empty());
    assert(entries_view(v@) =~= sort_by_name(input.take(0)));
    while i < n
        invariant
            n == orig.len(),
            input == entries_view(orig),
            i <= n,
            rest@ =~= orig.skip(i as int),
            entries_view(v@) == sort_by_name(input.take(i as int)),
        decreases n - i,
    {
        let e = rest.remove(0);
        let ghost ev = entry_view(e);
        assert(ev == input[i as int]);
        let ghost sorted = entries_view(v@);
        let key = e.0.as_str().as_bytes();
        let mut j: usize = v.len();
        while j > 0 && bytes_less(key, v[j - 1].0.as_str().as_bytes())
            invariant
                j <= v@.len(),
                sorted == entries_view(v@),
                key@ == name_key(ev),
                forall|k: int| j <= k < sorted.len() ==> bytes_lt(name_key(ev), #[trigger] name_key(sorted[k])),
            decreases j,
        {
            j = j - 1;
        }
        proof {
            lemma_insert_pos_prefix(sorted, ev, j as int);
            if j > 0 {
                assert(sorted.take(j as int).last() == sorted[j - 1]);
                assert(sorted.take(j as int).drop_last() =~= sorted.take(j - 1));
            } else {
                assert(sorted.take(0).len() == 0);
            }
            assert(insert_pos(sorted, ev) == j);
            assert(input.take(i + 1).drop_last() =~= input.take(i as int));
        }
        v.insert(j, e);
        assert(entries_view(v@) =~= sorted.insert(j as int, ev));
        assert(rest@ =~= orig.skip(i + 1));
        i = i + 1;
    }
    assert(input.take(n as int) =~= input);
}

/// Gives every file its Level 1 name and puts the files in directory order.
pub fn prepare_entries(entries: Vec<(String, Vec<u8>)>) -> (files: Vec<(String, Vec<u8>)>)
    ensures
        entries_view(files@) == sort_by_name(renamed(entries_view(entries@))),
{
    let ghost orig = entries@;
    let mut rest = entries;
    let mut files: Vec<(String, Vec<u8>)> = Vec::new();
    let n = rest.len();
    let mut i: usize = 0;
    while i < n
        invariant
            n == orig.len(),
            i <= n,
            rest@ =~= orig.skip(i as int),
            entries_view(files@) =~= renamed(entries_view(orig)).take(i as int),
        decreases n - i,
    {
        let (name, data) = rest.remove(0);
        assert(name@ == orig[i as int].0@ && data@ == orig[i as int].1@);
        let iso = sanitize_iso_name(name.as_str());
        let ghost before = files@;
        files.push((iso, data));
        assert(entries_view(files@) =~= entries_view(before).push(
            renamed(entries_view(orig))[i as int],
        ));
        assert(renamed(entries_view(orig)).take(i + 1) =~= renamed(entries_view(orig)).take(
            i as int,
        ).push(renamed(entries_view(orig))[i as int]));
        assert(rest@ =~= orig.skip(i + 1));
        i = i + 1;
    }
    assert(renamed(entries_view(orig)).take(n as int) =~= renamed(entries_view(orig)));
    sort_entries(&mut files);
    files
}

/// Number of sectors a file of `len` bytes occupies, computed without overflow.
fn sectors_of_len(len: usize) -> (n: u64)
    ensures
        n == file_sectors(len as nat),
{
    let whole = (len / 2048) as u64;
    let n = if len % 2048 == 0 {
        whole
    } else {
        whole + 1
    };
    assert(n == sectors_for(len as nat)) by (nonlinear_arith)
        requires
            whole == len / 2048,
            len % 2048 == 0 ==> n == whole,
            len % 2048 != 0 ==> n == whole + 1,
    ;
    if n == 0 {
        1
    } else {
        n
    }
}

/// Whether the image of `files` can be addressed: its sector numbers fit the format's
/// 32-bit fields and its size fits in memory.
pub fn check_image_fits(files: &[(String, Vec<u8>)]) -> (fits: bool)
    ensures
        fits == image_fits(files@),
{
    let ghost fs = files@;
    let mut total: u64 = 21;
    let mut i: usize = 0;
    while i < files.len()
        invariant
            i <= fs.len(),
            fs == files@,
            total == 21 + data_sectors(fs.take(i as int)),
            total <= u32::MAX,
        decreases fs.len() - i,
    {
        proof {
            lemma_data_sectors_step(fs, i as int);
        }
        let s = sectors_of_len(files[i].1.len());
        if s > 0xFFFF_FFFF - total {
            proof {
                lemma_data_sectors_mono(fs, i + 1, fs.len() as int);
                assert(fs.take(fs.len() as int) =~= fs);
            }
            return false;
        }
        total = total + s;
        i = i + 1;
    }
    assert(fs.take(fs.len() as int) =~= fs);
    assert(total == total_sectors(fs));
    (total as u128) * 2048 <= usize::MAX as u128
}

proof fn lemma_lt_asymmetric(a: Seq<u8>, b: Seq<u8>)
    ensures
        bytes_lt(a, b) ==> !bytes_lt(b, a),
    decreases a.len(),
{
    if a.len() > 0 && b.len() > 0 && a[0] == b[0] {
        lemma_lt_asymmetric(a.drop_first(), b.drop_first());
    }
}

proof fn lemma_lt_transitive(a: Seq<u8>, b: Seq<u8>, c: Seq<u8>)
    ensures
        bytes_lt(a, b) && bytes_lt(b, c) ==> bytes_lt(a, c),
    decreases a.len(),
{
    if a.len() > 0 && b.len() > 0 && c.len() > 0 {
        lemma_lt_transitive(a.drop_first(), b.drop_first(), c.drop_first());
    }
}

proof fn lemma_lt_total(a: Seq<u8>, b: Seq<u8>)
    ensures
        !bytes_lt(a, b) && !bytes_lt(b, a) ==> a == b,
    decreases a.len(),
{
    if a.len() > 0 && b.len() > 0 && a[0] == b[0] {
        lemma_lt_total(a.drop_first(), b.drop_first());
        if a.drop_first() == b.drop_first() {
            assert(a =~= seq![a[0]] + a.drop_first());
            assert(b =~= seq![b[0]] + b.drop_first());
        }
    } else if a.len() == 0 && b.len() == 0 {
        assert(a =~= b);
    }
}

/// `s` is in directory order: no file's name key is below that of a file before it.
pub open spec fn is_name_sorted(s: Seq<(Seq<char>, Seq<u8>)>) -> bool {
    forall|i: int, j: int|
        0 <= i < j < s.len() ==> !bytes_lt(#[trigger] name_key(s[j]), #[trigger] name_key(s[i]))
}

/// Files in directory order stand sorted by the bytes of their names.
pub proof fn law_sorted_by_name(s: Seq<(Seq<char>, Seq<u8>)>)
    ensures
        is_name_sorted(sort_by_name(s)),
    decreases s.len(),
{
    if s.len() > 0 {
        let t = sort_by_name(s.drop_last());
        law_sorted_by_name(s.drop_last());
        let e = s.last();
        let p = insert_pos(t, e);
        lemma_insert_pos(t, e);
        let r = t.insert(p, e);
        assert(r == sort_by_name(s));
        assert forall|i: int, j: int| 0 <= i < j < r.len() implies !bytes_lt(
            #[trigger] name_key(r[j]),
            #[trigger] name_key(r[i]),
        ) by {
            if j < p {
                assert(r[i] == t[i] && r[j] == t[j]);
                assert(!bytes_lt(name_key(t[j]), name_key(t[i])));
            } else if j == p {
                // r[j] == e, r[i] == t[i] with i <= p - 1: t[i] <= t[p - 1] <= e
                assert(r[i] == t[i]);
                let ki = name_key(t[i]);
                let kl = name_key(t[p - 1]);
                let ke = name_key(e);
                if i < p - 1 {
                    assert(!bytes_lt(name_key(t[p - 1]), name_key(t[i])));
                }
                lemma_lt_total(ki, kl);
                lemma_lt_transitive(ke, ki, kl);
            } else if i == p {
                // r[i] == e < t[j - 1] == r[j]
                assert(r[j] == t[j - 1]);
                lemma_lt_asymmetric(name_key(e), name_key(t[j - 1]));
            } else if i < p {
                assert(r[i] == t[i] && r[j] == t[j - 1]);
                assert(!bytes_lt(name_key(t[j - 1]), name_key(t[i])));
            } else {
                assert(r[i] == t[i - 1] && r[j] == t[j - 1]);
                assert(!bytes_lt(name_key(t[j - 1]), name_key(t[i - 1])));
            }
        }
    }
}

proof fn lemma_insert_multiset(t: Seq<(Seq<char>, Seq<u8>)>, p: int, e: (Seq<char>, Seq<u8>))
    requires
        0 <= p <= t.len(),
    ensures
        t.insert(p, e).to_multiset() =~= t.to_multiset().insert(e),
{
    broadcast use vstd::seq_lib::group_to_multiset_ensures;

    let r = t.insert(p, e);
    assert(r.remove(p) =~= t);
    assert(r.contains(e)) by {
        assert(r[p] == e);
    }
    assert(r.to_multiset().count(e) > 0);
    assert(r.to_multiset().remove(e) =~= t.to_multiset());
}

/// Putting files in directory order neither loses nor adds a file.
pub proof fn law_sort_is_permutation(s: Seq<(Seq<char>, Seq<u8>)>)
    ensures
        sort_by_name(s).to_multiset() =~= s.to_multiset(),
    decreases s.len(),
{
    broadcast use vstd::seq_lib::group_to_multiset_ensures;

    if s.len() > 0 {
        let t = sort_by_name(s.drop_last());
        law_sort_is_permutation(s.drop_last());
        lemma_insert_pos(t, s.last());
        lemma_insert_multiset(t, insert_pos(t, s.last()), s.last());
        assert(s.drop_last().push(s.last()) =~= s);
    }
}

/// Every name in a prepared directory is a Level 1 name, so its recorded identifier is
/// at most 14 bytes.
pub proof fn law_prepared_names_are_short(s: Seq<(Seq<char>, Seq<u8>)>, i: int)
    requires
        0 <= i < sort_by_name(renamed(s)).len(),
    ensures
        name_key(sort_by_name(renamed(s))[i]).len() <= 14,
{
    broadcast use vstd::seq_lib::group_to_multiset_ensures;

    let t = renamed(s);
    let r = sort_by_name(t);
    let x = r[i];
    law_sort_is_permutation(t);
    assert(r.contains(x));
    assert(r.to_multiset().count(x) > 0);
    assert(t.to_multiset().count(x) > 0);
    assert(t.contains(x));
    let j = choose|j: int| 0 <= j < t.len() && t[j] == x;
    let upper = str_to_uppercase(s[j].0);
    assert(x.0 == iso_name_of(upper));
    law_iso_name_form(upper);
    vstd::utf8::is_ascii_chars_encode_utf8(x.0);
}

/// A prepared directory of at most 41 files always fits in the root directory sector:
/// `build_image` succeeds on it.
pub proof fn law_prepared_directory_fits(
    entries: Seq<(Seq<char>, Seq<u8>)>,
    files: Seq<(String, Vec<u8>)>,
)
    requires
        entries_view(files) == sort_by_name(renamed(entries)),
        files.len() <= 41,
    ensures
        root_directory(files).len() <= 2048,
{
    assert forall|i: int| 0 <= i < files.len() implies (#[trigger] entry_name(files[i])).len() <= 14 by {
        assert(entries_view(files)[i] == entry_view(files[i]));
        law_prepared_names_are_short(entries, i);
    }
    law_small_directory_fits(files);
}

/// `a` comes before `b` in plain lexicographic byte order: `a` is a proper prefix of `b`,
/// or at some index before which they agree, `a` has the smaller byte.
pub open spec fn lexicographically_before(a: Seq<u8>, b: Seq<u8>) -> bool {
    ||| a.len() < b.len() && a == b.take(a.len() as int)
    ||| exists|k: int|
        0 <= k < a.len() && k < b.len() && a.take(k) == b.take(k) && #[trigger] a[k] < b[k]
}

/// Directory order is plain byte order, the order of `str`: `bytes_lt(a, b)` holds exactly
/// when `a` is a proper prefix of `b` or, at the first index where they differ, `a` has
/// the smaller byte.
pub proof fn law_byte_order(a: Seq<u8>, b: Seq<u8>)
    ensures
        bytes_lt(a, b) <==> lexicographically_before(a, b),
    decreases a.len(),
{
    if b.len() == 0 {
    } else if a.len() == 0 {
        assert(a =~= b.take(0));
    } else if a[0] != b[0] {
        if a[0] < b[0] {
            assert(a.take(0) =~= b.take(0));
            assert(a[0] < b[0]);
        }
        if a.len() < b.len() && a == b.take(a.len() as int) {
            assert(a[0] == b.take(a.len() as int)[0]);
        }
        if exists|k: int|
            0 <= k < a.len() && k < b.len() && a.take(k) == b.take(k) && #[trigger] a[k] < b[k] {
            let k = choose|k: int|
                0 <= k < a.len() && k < b.len() && a.take(k) == b.take(k) && #[trigger] a[k] < b[k];
            if k > 0 {
                assert(a.take(k)[0] == b.take(k)[0]);
            }
        }
    } else {
        let a1 = a.drop_first();
        let b1 = b.drop_first();
        law_byte_order(a1, b1);
        // the prefix case carries over
        if a.len() < b.len() && a == b.take(a.len() as int) {
            assert(a1 =~= b1.take(a1.len() as int));
        }
        if a1.len() < b1.len() && a1 == b1.take(a1.len() as int) {
            assert forall|j: int| 0 <= j < a.len() implies #[trigger] a[j] == b.take(
                a.len() as int,
            )[j] by {
                if j > 0 {
                    assert(a[j] == a1[j - 1]);
                    assert(b1.take(a1.len() as int)[j - 1] == b[j]);
                }
            }
            assert(a =~= b.take(a.len() as int));
        }
        // the differing-byte case shifts by one
        if exists|k: int|
            0 <= k < a.len() && k < b.len() && a.take(k) == b.take(k) && #[trigger] a[k] < b[k] {
            let k = choose|k: int|
                0 <= k < a.len() && k < b.len() && a.take(k) == b.take(k) && #[trigger] a[k] < b[k];
            assert(k > 0);
            assert(a1.take(k - 1) =~= b1.take(k - 1)) by {
                assert forall|j: int| 0 <= j < k - 1 implies #[trigger] a1.take(k - 1)[j] == b1.take(k - 1)[j] by {
                    assert(a.take(k)[j + 1] == b.take(k)[j + 1]);
                }
            }
            assert(a1[k - 1] < b1[k - 1]);
        }
        if exists|k: int|
            0 <= k < a1.len() && k < b1.len() && a1.take(k) == b1.take(k) && #[trigger] a1[k] < b1[k] {
            let k = choose|k: int|
                0 <= k < a1.len() && k < b1.len() && a1.take(k) == b1.take(k) && #[trigger] a1[k]
                    < b1[k];
            assert(a.take(k + 1) =~= b.take(k + 1)) by {
                assert forall|j: int| 0 <= j < k + 1 implies #[trigger] a.take(k + 1)[j] == b.take(k + 1)[j] by {
                    if j > 0 {
                        assert(a1.take(k)[j - 1] == b1.take(k)[j - 1]);
                    }
                }
            }
            assert(a[k + 1] < b[k + 1]);
        }
    }
}

/// The files of `s` whose name key is `x`, in their order in `s`.
pub open spec fn with_key(s: Seq<(Seq<char>, Seq<u8>)>, x: Seq<u8>) -> Seq<(Seq<char>, Seq<u8>)>
    decreases s.len(),
{
    if s.len() == 0 {
        seq![]
    } else {
        with_key(s.drop_last(), x) + (if name_key(s.last()) == x {
            seq![s.last()]
        } else {
            seq![]
        })
    }
}

proof fn lemma_lt_irreflexive(a: Seq<u8>)
    ensures
        !bytes_lt(a, a),
    decreases a.len(),
{
    if a.len() > 0 {
        lemma_lt_irreflexive(a.drop_first());
    }
}

proof fn lemma_with_key_concat(a: Seq<(Seq<char>, Seq<u8>)>, b: Seq<(Seq<char>, Seq<u8>)>, x: Seq<u8>)
    ensures
        with_key(a + b, x) == with_key(a, x) + with_key(b, x),
    decreases b.len(),
{
    if b.len() == 0 {
        assert(a + b =~= a);
        assert(with_key(a, x) + with_key(b, x) =~= with_key(a, x));
    } else {
        lemma_with_key_concat(a, b.drop_last(), x);
        assert((a + b).drop_last() =~= a + b.drop_last());
        assert((a + b).last() == b.last());
        let tail = if name_key(b.last()) == x {
            seq![b.last()]
        } else {
            seq![]
        };
        assert(with_key(a, x) + with_key(b.drop_last(), x) + tail =~= with_key(a, x) + (with_key(
            b.drop_last(),
            x,
        ) + tail));
    }
}

proof fn lemma_with_key_none(b: Seq<(Seq<char>, Seq<u8>)>, x: Seq<u8>)
    requires
        forall|k: int| 0 <= k < b.len() ==> name_key(#[trigger] b[k]) != x,
    ensures
        with_key(b, x) == Seq::<(Seq<char>, Seq<u8>)>::empty(),
    decreases b.len(),
{
    if b.len() > 0 {
        let p = b.drop_last();
        assert forall|k: int| 0 <= k < p.len() implies name_key(#[trigger] p[k]) != x by {
            assert(p[k] == b[k]);
        }
        lemma_with_key_none(p, x);
        assert(name_key(b[b.len() - 1]) != x);
        assert(with_key(b, x) =~= Seq::<(Seq<char>, Seq<u8>)>::empty());
    }
}

/// Directory order is stable: the files that share a name keep the order they came in.
pub proof fn law_sort_is_stable(s: Seq<(Seq<char>, Seq<u8>)>, x: Seq<u8>)
    ensures
        with_key(sort_by_name(s), x) == with_key(s, x),
    decreases s.len(),
{
    if s.len() > 0 {
        let t = sort_by_name(s.drop_last());
        law_sort_is_stable(s.drop_last(), x);
        let e = s.last();
        let p = insert_pos(t, e);
        lemma_insert_pos(t, e);
        let r = t.insert(p, e);
        let a = t.take(p);
        let b = t.skip(p);
        assert(r =~= a + seq![e] + b);
        assert(t =~= a + b);
        lemma_with_key_concat(a + seq![e], b, x);
        lemma_with_key_concat(a, seq![e], x);
        lemma_with_key_concat(a, b, x);
        let one = seq![e];
        let none = Seq::<(Seq<char>, Seq<u8>)>::empty();
        assert(one.drop_last() =~= none);
        assert(one.last() == e);
        assert(with_key(none, x) == none);
        assert(with_key(one, x) == with_key(none, x) + (if name_key(e) == x {
            seq![e]
        } else {
            seq![]
        }));
        if name_key(e) == x {
            lemma_lt_irreflexive(x);
            assert forall|k: int| 0 <= k < b.len() implies name_key(#[trigger] b[k]) != x by {
                assert(b[k] == t[p + k]);
                assert(bytes_lt(name_key(e), name_key(t[p + k])));
            }
            lemma_with_key_none(b, x);
            assert(with_key(one, x) =~= seq![e]);
            assert(with_key(r, x) =~= with_key(t, x) + seq![e]);
        } else {
            assert(with_key(one, x) =~= none);
            assert(with_key(r, x) =~= with_key(t, x));
        }
    }
}

} // verus!
