//! File names in ISO 9660 Level 1 form: a stem of at most 8 d-characters (`A-Z 0-9 _`),
//! optionally a `.` and an extension of 1 to 3 d-characters, and the version suffix `;1`.

use vstd::prelude::*;
use vstd::string::StrSliceExecFns;
use vstd::utf8::is_ascii_chars;

verus! {

/// The result of `str::to_uppercase` on a string with the characters `s`
/// (the Unicode upper-case mapping, which may change the number of characters).
pub uninterp spec fn str_to_uppercase(s: Seq<char>) -> Seq<char>;

pub open spec fn is_ascii_lower(c: char) -> bool {
    'a' <= c && c <= 'z'
}

pub open spec fn is_ascii_upper(c: char) -> bool {
    'A' <= c && c <= 'Z'
}

pub open spec fn is_ascii_digit(c: char) -> bool {
    '0' <= c && c <= '9'
}

/// ASCII upper-casing of one character: `a..z` become `A..Z`, all else is kept.
pub open spec fn ascii_upper(c: char) -> char {
    if is_ascii_lower(c) {
        ((c as u32) - 32) as char
    } else {
        c
    }
}

/// ASCII upper-casing of every character of `s`.
pub open spec fn ascii_uppercase(s: Seq<char>) -> Seq<char> {
    s.map_values(|c: char| ascii_upper(c))
}

/// Calls `str::to_uppercase`. Its result is named by `str_to_uppercase`; for a string of
/// ASCII characters it is the ASCII upper-casing of each character (Unicode maps `a..z`
/// to `A..Z` and gives no other ASCII character an upper-case form). Whatever the input,
/// no character of the result is in `a..z`: every such letter has an upper-case mapping,
/// and no upper-case mapping yields one. Nothing more is stated of non-ASCII input.
#[verifier::external_body]
fn to_uppercase(s: &str) -> (upper: String)
    ensures
        upper@ == str_to_uppercase(s@),
        is_ascii_chars(s@) ==> upper@ == ascii_uppercase(s@),
        forall|k: int| 0 <= k < upper@.len() ==> !is_ascii_lower(#[trigger] upper@[k]),
{
    s.to_uppercase()
}

/// Calls `String::from_iter` on the characters of `chars`: the string holds exactly those
/// characters, in order.
#[verifier::external_body]
fn string_from_chars(chars: &Vec<char>) -> (s: String)
    ensures
        s@ == chars@,
{
    String::from_iter(chars.iter())
}

/// A d-character of ISO 9660: `A-Z`, `0-9` or `_`.
pub open spec fn is_d_char(c: char) -> bool {
    is_ascii_upper(c) || is_ascii_digit(c) || c == '_'
}

/// First pass over an upper-cased name: d-characters and `.` stay, anything else
/// becomes `_`. (Which `.` separates the extension is decided afterwards.)
pub open spec fn iso_char(c: char) -> char {
    if is_d_char(c) || c == '.' {
        c
    } else {
        '_'
    }
}

/// A `.` that does not separate the extension becomes `_`.
pub open spec fn stem_char(c: char) -> char {
    if c == '.' {
        '_'
    } else {
        c
    }
}

/// Index of the last occurrence of `c` in `s`, or -1.
pub open spec fn last_index_of(s: Seq<char>, c: char) -> int
    decreases s.len(),
{
    if s.len() == 0 {
        -1
    } else if s.last() == c {
        s.len() - 1
    } else {
        last_index_of(s.drop_last(), c)
    }
}

/// The first `n` elements of `s`, or all of `s` when it is shorter.
pub open spec fn at_most(s: Seq<char>, n: nat) -> Seq<char> {
    if s.len() <= n {
        s
    } else {
        s.take(n as int)
    }
}

/// `s` after replacing the characters that a Level 1 name cannot hold.
pub open spec fn iso_chars(s: Seq<char>) -> Seq<char> {
    s.map_values(|c: char| iso_char(c))
}

/// The stem: everything before the last `.` (everything when there is none), with any
/// other `.` turned into `_`.
pub open spec fn name_stem(m: Seq<char>) -> Seq<char> {
    let d = last_index_of(m, '.');
    let before = if d < 0 {
        m
    } else {
        m.take(d)
    };
    before.map_values(|c: char| stem_char(c))
}

/// The extension: everything after the last `.` (nothing when there is none).
pub open spec fn name_ext(m: Seq<char>) -> Seq<char> {
    let d = last_index_of(m, '.');
    if d < 0 {
        seq![]
    } else {
        m.skip(d + 1)
    }
}

/// The Level 1 name made from an upper-cased name: the stem cut to 8 characters, a `.`
/// and the extension cut to 3 characters when that is not empty, then `;1`. Only the
/// last `.` of the name separates the extension.
pub open spec fn iso_name_of(upper: Seq<char>) -> Seq<char> {
    let m = iso_chars(upper);
    let stem = at_most(name_stem(m), 8);
    let ext = at_most(name_ext(m), 3);
    if ext.len() == 0 {
        stem + seq![';', '1']
    } else {
        stem + seq!['.'] + ext + seq![';', '1']
    }
}

proof fn lemma_last_index_of(s: Seq<char>, c: char)
    ensures
        -1 <= last_index_of(s, c) < s.len(),
        last_index_of(s, c) >= 0 ==> s[last_index_of(s, c)] == c,
        forall|k: int| last_index_of(s, c) < k < s.len() ==> s[k] != c,
    decreases s.len(),
{
    if s.len() > 0 && s.last() != c {
        let p = s.drop_last();
        lemma_last_index_of(p, c);
        assert forall|k: int| last_index_of(s, c) < k < s.len() implies s[k] != c by {
            if k < s.len() - 1 {
                assert(s[k] == p[k]);
            }
        }
    }
}

/// Turns an already upper-cased name into its Level 1 form.
pub fn iso_name_from_upper(upper: &str) -> (name: String)
    ensures
        name@ == iso_name_of(upper@),
{
    let n = upper.unicode_len();
    let ghost u = upper@;
    let mut mapped: Vec<char> = Vec::new();
    let mut i: usize = 0;
    while i < n
        invariant
            n == u.len(),
            u == upper@,
            i <= n,
            mapped@ =~= iso_chars(u.take(i as int)),
        decreases n - i,
    {
        let c = upper.get_char(i);
        let kept = if ('A' <= c && c <= 'Z') || ('0' <= c && c <= '9') || c == '_' || c == '.' {
            c
        } else {
            '_'
        };
        mapped.push(kept);
        i = i + 1;
    }
    assert(u.take(n as int) =~= u);
    let ghost m = mapped@;

    // Position of the last '.', searching from the end.
    let mut j: usize = n;
    while j > 0 && mapped[j - 1] != '.'
        invariant
            j <= n,
            n == m.len(),
            mapped@ == m,
            forall|k: int| j <= k < n ==> m[k] != '.',
        decreases j,
    {
        j = j - 1;
    }
    proof {
        lemma_last_index_of(m, '.');
        if j > 0 {
            assert(m[j - 1] == '.');
            assert(last_index_of(m, '.') == j - 1);
        } else {
            assert(last_index_of(m, '.') == -1);
        }
    }
    let (stem_end, ext_start) = if j > 0 {
        (j - 1, j)
    } else {
        (n, n)
    };
    let stem_len = if stem_end < 8 {
        stem_end
    } else {
        8
    };
    let ext_len = if n - ext_start < 3 {
        n - ext_start
    } else {
        3
    };

    let mut out: Vec<char> = Vec::new();
    let mut k: usize = 0;
    while k < stem_len
        invariant
            stem_len <= stem_end <= n,
            n == m.len(),
            mapped@ == m,
            k <= stem_len,
            out@ =~= m.take(k as int).map_values(|c: char| stem_char(c)),
        decreases stem_len - k,
    {
        let c = mapped[k];
        out.push(if c == '.' {
            '_'
        } else {
            c
        });
        k = k + 1;
    }
    let ghost stem = out@;
    assert(stem =~= at_most(name_stem(m), 8));
    if ext_len > 0 {
        out.push('.');
        let mut e: usize = 0;
        while e < ext_len
            invariant
                ext_start + ext_len <= n,
                n == m.len(),
                mapped@ == m,
                e <= ext_len,
                out@ =~= stem + seq!['.'] + m.subrange(ext_start as int, ext_start + e),
            decreases ext_len - e,
        {
            out.push(mapped[ext_start + e]);
            e = e + 1;
        }
        assert(m.subrange(ext_start as int, ext_start + ext_len) =~= at_most(name_ext(m), 3));
    } else {
        assert(at_most(name_ext(m), 3).len() == 0);
    }
    out.push(';');
    out.push('1');
    assert(out@ =~= iso_name_of(u));
    string_from_chars(&out)
}

/// No character of `s` is in `a..z`.
pub open spec fn no_ascii_lower(s: Seq<char>) -> bool {
    forall|k: int| 0 <= k < s.len() ==> !is_ascii_lower(#[trigger] s[k])
}

/// The first pass with the wider filter "ASCII letter or digit, `_` or `.`".
pub open spec fn alnum_filtered(s: Seq<char>) -> Seq<char> {
    s.map_values(
        |c: char|
            if is_ascii_lower(c) || is_d_char(c) || c == '.' {
                c
            } else {
                '_'
            },
    )
}

/// On an upper-cased name, which holds no `a..z`, keeping only upper-case letters is the
/// same as keeping all ASCII letters: the first pass agrees with the wider filter.
pub proof fn law_filter_agrees_on_upper_case(upper: Seq<char>)
    requires
        no_ascii_lower(upper),
    ensures
        iso_chars(upper) == alnum_filtered(upper),
{
    assert forall|k: int| 0 <= k < upper.len() implies iso_chars(upper)[k] == alnum_filtered(
        upper,
    )[k] by {
        assert(!is_ascii_lower(upper[k]));
    }
    assert(iso_chars(upper) =~= alnum_filtered(upper));
}

/// Converts a file name to ISO 9660 Level 1 form (8.3, upper case, `A-Z 0-9 _`, `;1`).
pub fn sanitize_iso_name(name: &str) -> (iso: String)
    ensures
        iso@ == iso_name_of(str_to_uppercase(name@)),
        is_ascii_chars(name@) ==> iso@ == iso_name_of(ascii_uppercase(name@)),
        no_ascii_lower(str_to_uppercase(name@)),
{
    let upper = to_uppercase(name);
    iso_name_from_upper(upper.as_str())
}

proof fn lemma_last_index_is(s: Seq<char>, c: char, p: int)
    requires
        -1 <= p < s.len(),
        p >= 0 ==> s[p] == c,
        forall|k: int| p < k < s.len() ==> s[k] != c,
    ensures
        last_index_of(s, c) == p,
{
    lemma_last_index_of(s, c);
    let li = last_index_of(s, c);
    if li > p {
        assert(s[li] == c);
    } else if li < p {
        assert(s[p] == c);
    }
}

/// The body of a Level 1 name (everything before `;1`) is in 8.3 form.
pub open spec fn is_8_3_body(b: Seq<char>) -> bool {
    let p = last_index_of(b, '.');
    &&& forall|k: int| 0 <= k < b.len() && k != p ==> is_d_char(#[trigger] b[k])
    &&& p < 0 ==> b.len() <= 8
    &&& p >= 0 ==> p <= 8 && 1 <= b.len() - p - 1 <= 3
}

/// The stem and extension of `iso_name_of(upper)`, and how they make up the name.
proof fn lemma_name_parts(upper: Seq<char>)
    ensures
        ({
            let m = iso_chars(upper);
            let stem = at_most(name_stem(m), 8);
            let ext = at_most(name_ext(m), 3);
            &&& stem.len() <= 8
            &&& ext.len() <= 3
            &&& forall|k: int| 0 <= k < stem.len() ==> is_d_char(#[trigger] stem[k])
            &&& forall|k: int| 0 <= k < ext.len() ==> is_d_char(#[trigger] ext[k])
        }),
{
    let m = iso_chars(upper);
    lemma_last_index_of(m, '.');
    let d = last_index_of(m, '.');
    assert forall|k: int| 0 <= k < m.len() implies is_d_char(#[trigger] m[k]) || m[k] == '.' by {
        assert(m[k] == iso_char(upper[k]));
    }
    let ns = name_stem(m);
    assert forall|k: int| 0 <= k < ns.len() implies is_d_char(#[trigger] ns[k]) by {
        assert(ns[k] == stem_char(m[k]));
    }
    let stem = at_most(ns, 8);
    assert forall|k: int| 0 <= k < stem.len() implies is_d_char(#[trigger] stem[k]) by {
        assert(stem[k] == ns[k]);
    }
    let ne = name_ext(m);
    assert forall|k: int| 0 <= k < ne.len() implies is_d_char(#[trigger] ne[k]) by {
        assert(ne[k] == m[d + 1 + k]);
    }
    let ext = at_most(ne, 3);
    assert forall|k: int| 0 <= k < ext.len() implies is_d_char(#[trigger] ext[k]) by {
        assert(ext[k] == ne[k]);
    }
}

/// Level 1 form: every converted name is `^[A-Z0-9_]{0,8}(\.[A-Z0-9_]{1,3})?;1$`: a stem of
/// at most 8 d-characters, then either nothing or one `.` followed by 1 to 3
/// d-characters, then `;1`. It is made of ASCII characters only.
pub proof fn law_iso_name_form(upper: Seq<char>)
    ensures
        ({
            let r = iso_name_of(upper);
            &&& 2 <= r.len() <= 14
            &&& r[r.len() - 2] == ';'
            &&& r[r.len() - 1] == '1'
            &&& is_8_3_body(r.take(r.len() - 2))
            &&& is_ascii_chars(r)
        }),
{
    let m = iso_chars(upper);
    let stem = at_most(name_stem(m), 8);
    let ext = at_most(name_ext(m), 3);
    lemma_name_parts(upper);
    let r = iso_name_of(upper);
    let b = r.take(r.len() - 2);
    if ext.len() == 0 {
        assert(b =~= stem);
        assert forall|k: int| 0 <= k < b.len() implies b[k] != '.' by {
            assert(is_d_char(stem[k]));
        }
        lemma_last_index_is(b, '.', -1);
    } else {
        assert(b =~= stem + seq!['.'] + ext);
        assert forall|k: int| stem.len() < k < b.len() implies b[k] != '.' by {
            assert(b[k] == ext[k - stem.len() - 1]);
            assert(is_d_char(ext[k - stem.len() - 1]));
        }
        lemma_last_index_is(b, '.', stem.len() as int);
        assert forall|k: int| 0 <= k < b.len() && k != stem.len() implies is_d_char(
            #[trigger] b[k],
        ) by {
            if k < stem.len() {
                assert(b[k] == stem[k]);
            } else {
                assert(b[k] == ext[k - stem.len() - 1]);
            }
        }
    }
    assert forall|k: int| 0 <= k < r.len() implies '\0' <= #[trigger] r[k] <= '\u{7f}' by {
        if k < r.len() - 2 {
            assert(r[k] == b[k]);
            if k != last_index_of(b, '.') {
                assert(is_d_char(b[k]));
            }
        }
    }
}

/// Converting a converted name again gives it back: the body of a Level 1 name (the name
/// without `;1`) is ASCII, and `sanitize_iso_name` turns it into the same Level 1 name.
pub proof fn law_iso_name_idempotent(upper: Seq<char>)
    ensures
        ({
            let r = iso_name_of(upper);
            let b = r.take(r.len() - 2);
            &&& is_ascii_chars(b)
            &&& iso_name_of(ascii_uppercase(b)) == r
        }),
{
    law_iso_name_form(upper);
    lemma_name_parts(upper);
    let m0 = iso_chars(upper);
    let stem = at_most(name_stem(m0), 8);
    let ext = at_most(name_ext(m0), 3);
    let r = iso_name_of(upper);
    let b = r.take(r.len() - 2);
    let p = last_index_of(b, '.');
    assert forall|k: int| 0 <= k < b.len() implies '\0' <= #[trigger] b[k] <= '\u{7f}' by {
        assert(r[k] == b[k]);
    }
    // b holds only d-characters and at most one '.', so neither pass changes it.
    assert forall|k: int| 0 <= k < b.len() implies is_d_char(#[trigger] b[k]) || b[k] == '.' by {
        if k != p {
        }
    }
    let u = ascii_uppercase(b);
    assert(u =~= b);
    let m = iso_chars(b);
    assert(m =~= b);
    if ext.len() == 0 {
        assert(b =~= stem);
        assert(p == -1) by {
            lemma_last_index_of(b, '.');
            if p >= 0 {
                assert(is_d_char(stem[p]));
            }
        }
        assert(name_stem(m) =~= b);
        assert(name_ext(m) =~= Seq::<char>::empty());
    } else {
        assert(b =~= stem + seq!['.'] + ext);
        assert(b[stem.len() as int] == '.');
        assert(p == stem.len()) by {
            lemma_last_index_of(b, '.');
            if p > stem.len() {
                assert(b[p] == ext[p - stem.len() - 1]);
                assert(is_d_char(ext[p - stem.len() - 1]));
            }
        }
        assert(name_stem(m) =~= stem);
        assert(name_ext(m) =~= ext);
    }
    assert(iso_name_of(u) =~= r);
}

/// What a character of the name becomes inside the stem or extension: `A-Z`, `0-9` and `_`
/// stay, anything else (a `.` too) becomes `_`.
pub open spec fn level1_char(c: char) -> char {
    if ('A' <= c && c <= 'Z') || ('0' <= c && c <= '9') || c == '_' {
        c
    } else {
        '_'
    }
}

proof fn lemma_first_pass(upper: Seq<char>)
    ensures
        iso_chars(upper).len() == upper.len(),
        forall|k: int|
            0 <= k < upper.len() ==> (#[trigger] iso_chars(upper)[k] == '.') == (upper[k] == '.'),
        forall|k: int|
            0 <= k < upper.len() ==> #[trigger] stem_char(iso_chars(upper)[k]) == level1_char(
                upper[k],
            ),
        forall|k: int|
            0 <= k < upper.len() && upper[k] != '.' ==> #[trigger] iso_chars(upper)[k]
                == level1_char(upper[k]),
{
}

/// A name with no `.` has no extension: its Level 1 form is its first (at most) 8
/// characters, each kept when in `A-Z 0-9 _` and otherwise made `_`, then `;1`.
pub proof fn law_iso_name_without_dot(upper: Seq<char>)
    requires
        forall|k: int| 0 <= k < upper.len() ==> upper[k] != '.',
    ensures
        ({
            let r = iso_name_of(upper);
            let sl: int = if upper.len() < 8 {
                upper.len() as int
            } else {
                8
            };
            &&& r.len() == sl + 2
            &&& forall|k: int| 0 <= k < sl ==> #[trigger] r[k] == level1_char(upper[k])
            &&& r[sl] == ';'
            &&& r[sl + 1] == '1'
        }),
{
    lemma_first_pass(upper);
    let m = iso_chars(upper);
    lemma_last_index_is(m, '.', -1);
    let r = iso_name_of(upper);
    let stem = at_most(name_stem(m), 8);
    assert(name_ext(m).len() == 0);
    assert(r == stem + seq![';', '1']);
    assert forall|k: int| 0 <= k < stem.len() implies #[trigger] r[k] == level1_char(upper[k]) by {
        assert(r[k] == stem[k]);
        assert(stem[k] == name_stem(m)[k]);
        assert(name_stem(m)[k] == stem_char(m[k]));
    }
}

/// A name whose last `.` is at index `d`: the stem is made of the (at most) 8 first
/// characters before it, the extension of the (at most) 3 first characters after it, each
/// kept when in `A-Z 0-9 _` and otherwise made `_` (so earlier dots become `_`); a `.`
/// stands between them only when the extension is not empty; `;1` ends the name.
pub proof fn law_iso_name_with_dot(upper: Seq<char>, d: int)
    requires
        0 <= d < upper.len(),
        upper[d] == '.',
        forall|k: int| d < k < upper.len() ==> upper[k] != '.',
    ensures
        ({
            let r = iso_name_of(upper);
            let sl: int = if d < 8 {
                d
            } else {
                8
            };
            let el: int = if upper.len() - d - 1 < 3 {
                upper.len() - d - 1
            } else {
                3
            };
            &&& forall|k: int| 0 <= k < sl ==> #[trigger] r[k] == level1_char(upper[k])
            &&& el == 0 ==> r.len() == sl + 2 && r[sl] == ';' && r[sl + 1] == '1'
            &&& el > 0 ==> {
                &&& r.len() == sl + el + 3
                &&& r[sl] == '.'
                &&& forall|k: int| 0 <= k < el ==> #[trigger] r[sl + 1 + k] == level1_char(
                    upper[d + 1 + k],
                )
                &&& r[sl + el + 1] == ';'
                &&& r[sl + el + 2] == '1'
            }
        }),
{
    lemma_first_pass(upper);
    let m = iso_chars(upper);
    assert forall|k: int| d < k < m.len() implies m[k] != '.' by {
        assert(upper[k] != '.');
    }
    lemma_last_index_is(m, '.', d);
    let r = iso_name_of(upper);
    let stem = at_most(name_stem(m), 8);
    let ext = at_most(name_ext(m), 3);
    let sl: int = if d < 8 {
        d
    } else {
        8
    };
    assert(stem.len() == sl);
    assert forall|k: int| 0 <= k < sl implies #[trigger] stem[k] == level1_char(upper[k]) by {
        assert(stem[k] == name_stem(m)[k]);
        assert(name_stem(m)[k] == stem_char(m[k]));
    }
    assert forall|k: int| 0 <= k < ext.len() implies #[trigger] ext[k] == level1_char(
        upper[d + 1 + k],
    ) by {
        assert(ext[k] == m[d + 1 + k]);
        assert(upper[d + 1 + k] != '.');
    }
    if ext.len() == 0 {
        assert(r == stem + seq![';', '1']);
        assert forall|k: int| 0 <= k < sl implies #[trigger] r[k] == level1_char(upper[k]) by {
            assert(r[k] == stem[k]);
        }
    } else {
        assert(r == stem + seq!['.'] + ext + seq![';', '1']);
        assert forall|k: int| 0 <= k < sl implies #[trigger] r[k] == level1_char(upper[k]) by {
            assert(r[k] == stem[k]);
        }
        assert forall|k: int| 0 <= k < ext.len() implies #[trigger] r[sl + 1 + k] == level1_char(
            upper[d + 1 + k],
        ) by {
            assert(r[sl + 1 + k] == ext[k]);
        }
    }
}

} // verus!
