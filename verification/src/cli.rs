//! The command line, in the `mkisofs` emulation that xorriso users know:
//! `-as mkisofs -V LABEL -o OUTPUT SOURCE_DIR`.

use vstd::prelude::*;
use vstd::string::{StrSliceExecFns, StringExecFns};

verus! {

/// What the image is made from and where it goes.
pub struct Args {
    pub source_dir: String,
    pub output: String,
    pub volume_label: String,
}

/// A command line that cannot be run.
#[derive(Debug)]
pub enum ArgError {
    /// `-as cdrecord`: writing to a disc is not implemented.
    BurningUnsupported,
    /// `-devices`: listing drives is not implemented.
    DeviceListingUnsupported,
    /// An option that is not known.
    UnsupportedOption(String),
    /// No source directory was given.
    MissingSourceDir,
    /// No output file (`-o`) was given.
    MissingOutput,
}

/// The outcome of reading a command line, over the characters of the arguments.
pub enum ArgOutcome {
    Run { source_dir: Seq<char>, output: Seq<char>, volume_label: Seq<char> },
    BurningUnsupported,
    DeviceListingUnsupported,
    UnsupportedOption(Seq<char>),
    MissingSourceDir,
    MissingOutput,
}

pub open spec fn outcome_of(r: Result<Args, ArgError>) -> ArgOutcome {
    match r {
        Ok(a) => ArgOutcome::Run {
            source_dir: a.source_dir@,
            output: a.output@,
            volume_label: a.volume_label@,
        },
        Err(ArgError::BurningUnsupported) => ArgOutcome::BurningUnsupported,
        Err(ArgError::DeviceListingUnsupported) => ArgOutcome::DeviceListingUnsupported,
        Err(ArgError::UnsupportedOption(o)) => ArgOutcome::UnsupportedOption(o@),
        Err(ArgError::MissingSourceDir) => ArgOutcome::MissingSourceDir,
        Err(ArgError::MissingOutput) => ArgOutcome::MissingOutput,
    }
}

pub open spec fn opt_as() -> Seq<char> {
    seq!['-', 'a', 's']
}

pub open spec fn word_cdrecord() -> Seq<char> {
    seq!['c', 'd', 'r', 'e', 'c', 'o', 'r', 'd']
}

pub open spec fn opt_devices() -> Seq<char> {
    seq!['-', 'd', 'e', 'v', 'i', 'c', 'e', 's']
}

pub open spec fn opt_output() -> Seq<char> {
    seq!['-', 'o']
}

pub open spec fn opt_volume() -> Seq<char> {
    seq!['-', 'V']
}

pub open spec fn opt_iso_level() -> Seq<char> {
    seq!['-', 'i', 's', 'o', '-', 'l', 'e', 'v', 'e', 'l']
}

/// The label used when no `-V` is given: `RS_XORRISO`.
pub open spec fn default_label() -> Seq<char> {
    seq!['R', 'S', '_', 'X', 'O', 'R', 'R', 'I', 'S', 'O']
}

/// Flags for long names (Joliet, Rock Ridge) that have no effect here, so that their
/// use is answered with a warning: `-J`, `-R`, `-joliet`, `-rock`.
pub open spec fn is_long_name_flag(t: Seq<char>) -> bool {
    ||| t == seq!['-', 'J']
    ||| t == seq!['-', 'R']
    ||| t == seq!['-', 'j', 'o', 'l', 'i', 'e', 't']
    ||| t == seq!['-', 'r', 'o', 'c', 'k']
}

/// Flags without a value that are accepted and ignored: the long-name flags, `-v`, `-q`.
pub open spec fn is_ignored_flag(t: Seq<char>) -> bool {
    ||| is_long_name_flag(t)
    ||| t == seq!['-', 'v']
    ||| t == seq!['-', 'q']
}

pub open spec fn is_option(t: Seq<char>) -> bool {
    t.len() > 0 && t[0] == '-'
}

/// Reads the arguments from index `i` on, given what was read before it; returns the
/// long-name flags met (for warnings) and the outcome.
pub open spec fn scan_args(
    raw: Seq<Seq<char>>,
    i: int,
    output: Option<Seq<char>>,
    label: Seq<char>,
    source: Option<Seq<char>>,
) -> (Seq<Seq<char>>, ArgOutcome)
    decreases raw.len() + 1 - i,
{
    if i < 0 || i >= raw.len() {
        (
            seq![],
            match (source, output) {
                (None, _) => ArgOutcome::MissingSourceDir,
                (Some(_), None) => ArgOutcome::MissingOutput,
                (Some(s), Some(o)) => ArgOutcome::Run { source_dir: s, output: o, volume_label: label },
            },
        )
    } else {
        let tok = raw[i];
        let next = if i + 1 < raw.len() {
            Some(raw[i + 1])
        } else {
            None
        };
        if tok == opt_as() {
            scan_args(raw, i + 2, output, label, source)
        } else if tok == opt_output() {
            scan_args(raw, i + 2, next, label, source)
        } else if tok == opt_volume() {
            scan_args(
                raw,
                i + 2,
                output,
                match next {
                    Some(l) => l,
                    None => label,
                },
                source,
            )
        } else if is_ignored_flag(tok) {
            let rest = scan_args(raw, i + 1, output, label, source);
            (if is_long_name_flag(tok) {
                seq![tok] + rest.0
            } else {
                rest.0
            }, rest.1)
        } else if tok == opt_iso_level() {
            scan_args(raw, i + 2, output, label, source)
        } else if is_option(tok) {
            (seq![], ArgOutcome::UnsupportedOption(tok))
        } else {
            scan_args(raw, i + 1, output, label, Some(tok))
        }
    }
}

/// The meaning of a whole command line (the arguments after the program name).
pub open spec fn read_args(raw: Seq<Seq<char>>) -> (Seq<Seq<char>>, ArgOutcome) {
    if raw.len() >= 2 && raw[0] == opt_as() && raw[1] == word_cdrecord() {
        (seq![], ArgOutcome::BurningUnsupported)
    } else if raw.len() >= 1 && raw[0] == opt_devices() {
        (seq![], ArgOutcome::DeviceListingUnsupported)
    } else {
        scan_args(raw, 0, None, default_label(), None)
    }
}

proof fn lemma_scan_past_end(
    raw: Seq<Seq<char>>,
    i: int,
    j: int,
    output: Option<Seq<char>>,
    label: Seq<char>,
    source: Option<Seq<char>>,
)
    requires
        i >= raw.len(),
        j >= raw.len(),
    ensures
        scan_args(raw, i, output, label, source) == scan_args(raw, j, output, label, source),
{
}

/// The characters of an optional argument.
pub open spec fn opt_chars(o: Option<String>) -> Option<Seq<char>> {
    match o {
        Some(s) => Some(s@),
        None => None,
    }
}

/// The characters of each argument.
pub open spec fn strings_view(v: Seq<String>) -> Seq<Seq<char>> {
    v.map_values(|s: String| s@)
}

/// Whether two strings hold the same characters.
pub fn str_eq(a: &str, b: &str) -> (eq: bool)
    ensures
        eq == (a@ == b@),
{
    let n = a.unicode_len();
    if n != b.unicode_len() {
        return false;
    }
    let mut i: usize = 0;
    while i < n
        invariant
            n == a@.len(),
            n == b@.len(),
            i <= n,
            forall|k: int| 0 <= k < i ==> a@[k] == b@[k],
        decreases n - i,
    {
        if a.get_char(i) != b.get_char(i) {
            return false;
        }
        i = i + 1;
    }
    assert(a@ =~= b@);
    true
}

fn is_long_name_flag_exec(t: &str) -> (r: bool)
    ensures
        r == is_long_name_flag(t@),
{
    proof {
        reveal_strlit("-J");
        reveal_strlit("-R");
        reveal_strlit("-joliet");
        reveal_strlit("-rock");
        assert("-J"@ =~= seq!['-', 'J']);
        assert("-R"@ =~= seq!['-', 'R']);
        assert("-joliet"@ =~= seq!['-', 'j', 'o', 'l', 'i', 'e', 't']);
        assert("-rock"@ =~= seq!['-', 'r', 'o', 'c', 'k']);
    }
    str_eq(t, "-J") || str_eq(t, "-R") || str_eq(t, "-joliet") || str_eq(t, "-rock")
}

fn is_ignored_flag_exec(t: &str) -> (r: bool)
    ensures
        r == is_ignored_flag(t@),
{
    proof {
        reveal_strlit("-v");
        reveal_strlit("-q");
        assert("-v"@ =~= seq!['-', 'v']);
        assert("-q"@ =~= seq!['-', 'q']);
    }
    is_long_name_flag_exec(t) || str_eq(t, "-v") || str_eq(t, "-q")
}

/// The index after an option and its value (at most `n`).
fn skip_value(i: usize, n: usize) -> (next: usize)
    requires
        i < n,
    ensures
        next == (if i + 2 <= n {
            i + 2
        } else {
            n as int
        }),
{
    if i + 1 < n {
        i + 2
    } else {
        n
    }
}

/// Reads the command line `raw` (without the program name). Returns the long-name flags
/// met before the outcome was decided, in order (each deserves a warning), and the
/// arguments or the reason why the line cannot be run.
pub fn parse_args(raw: &Vec<String>) -> (parsed: (Vec<String>, Result<Args, ArgError>))
    ensures
        (strings_view(parsed.0@), outcome_of(parsed.1)) == read_args(strings_view(raw@)),
{
    let ghost rv = strings_view(raw@);
    proof {
        reveal_strlit("-as");
        reveal_strlit("cdrecord");
        reveal_strlit("-devices");
        reveal_strlit("-o");
        reveal_strlit("-V");
        reveal_strlit("-iso-level");
        reveal_strlit("RS_XORRISO");
        assert("-as"@ =~= opt_as());
        assert("cdrecord"@ =~= word_cdrecord());
        assert("-devices"@ =~= opt_devices());
        assert("-o"@ =~= opt_output());
        assert("-V"@ =~= opt_volume());
        assert("-iso-level"@ =~= opt_iso_level());
        assert("RS_XORRISO"@ =~= default_label());
    }
    let n = raw.len();
    if n >= 2 && str_eq(raw[0].as_str(), "-as") && str_eq(raw[1].as_str(), "cdrecord") {
        let w: Vec<String> = Vec::new();
        assert(strings_view(w@) =~= seq![]);
        return (w, Err(ArgError::BurningUnsupported));
    }
    if n >= 1 && str_eq(raw[0].as_str(), "-devices") {
        let w: Vec<String> = Vec::new();
        assert(strings_view(w@) =~= seq![]);
        return (w, Err(ArgError::DeviceListingUnsupported));
    }

    let mut warned: Vec<String> = Vec::new();
    let mut output: Option<String> = None;
    let mut volume_label = String::from_str("RS_XORRISO");
    let mut source_dir: Option<String> = None;
    assert(strings_view(warned@) =~= seq![]);

    let mut i: usize = 0;
    while i < n
        invariant
            n == raw@.len(),
            rv == strings_view(raw@),
            i <= n,
            "-as"@ == opt_as(),
            "-o"@ == opt_output(),
            "-V"@ == opt_volume(),
            "-iso-level"@ == opt_iso_level(),
            read_args(rv) == ({
                let rest = scan_args(rv, i as int, opt_chars(output), volume_label@, opt_chars(source_dir));
                (strings_view(warned@) + rest.0, rest.1)
            }),
        decreases n - i,
    {
        let tok = raw[i].as_str();
        let ghost before = warned@;
        let ghost rest = scan_args(rv, i as int + 1, opt_chars(output), volume_label@, opt_chars(source_dir));
        let ghost cur = scan_args(rv, i as int, opt_chars(output), volume_label@, opt_chars(source_dir));
        let ghost i0 = i;
        if str_eq(tok, "-as") {
            assert(rv[i0 as int] == opt_as());
            i = skip_value(i, n);
            proof {
                if i0 + 2 > n {
                    lemma_scan_past_end(rv, i0 + 2, n as int, opt_chars(output), volume_label@, opt_chars(source_dir));
                }
            }
            assert(cur == scan_args(rv, i as int, opt_chars(output), volume_label@, opt_chars(source_dir)));
        } else if str_eq(tok, "-o") {
            if i + 1 < n {
                output = Some(raw[i + 1].clone());
            } else {
                output = None;
            }
            i = skip_value(i, n);
            proof {
                if i0 + 2 > n {
                    lemma_scan_past_end(rv, i0 + 2, n as int, opt_chars(output), volume_label@, opt_chars(source_dir));
                }
            }
            assert(cur == scan_args(rv, i as int, opt_chars(output), volume_label@, opt_chars(source_dir)));
        } else if str_eq(tok, "-V") {
            if i + 1 < n {
                volume_label = raw[i + 1].clone();
            }
            i = skip_value(i, n);
            proof {
                if i0 + 2 > n {
                    lemma_scan_past_end(rv, i0 + 2, n as int, opt_chars(output), volume_label@, opt_chars(source_dir));
                }
            }
            assert(cur == scan_args(rv, i as int, opt_chars(output), volume_label@, opt_chars(source_dir)));
        } else if is_ignored_flag_exec(tok) {
            if is_long_name_flag_exec(tok) {
                warned.push(raw[i].clone());
                assert(strings_view(warned@) =~= strings_view(before) + seq![rv[i as int]]);
                assert(strings_view(warned@) + rest.0 =~= strings_view(before) + (seq![rv[i as int]]
                    + rest.0));
            }
            i = i + 1;
            assert(cur.1 == rest.1);
        } else if str_eq(tok, "-iso-level") {
            i = skip_value(i, n);
            proof {
                if i0 + 2 > n {
                    lemma_scan_past_end(rv, i0 + 2, n as int, opt_chars(output), volume_label@, opt_chars(source_dir));
                }
            }
            assert(cur == scan_args(rv, i as int, opt_chars(output), volume_label@, opt_chars(source_dir)));
        } else if tok.unicode_len() > 0 && tok.get_char(0) == '-' {
            assert(strings_view(warned@) + seq![] =~= strings_view(warned@));
            return (warned, Err(ArgError::UnsupportedOption(raw[i].clone())));
        } else {
            source_dir = Some(raw[i].clone());
            i = i + 1;
            assert(cur == scan_args(rv, i as int, opt_chars(output), volume_label@, opt_chars(source_dir)));
        }
    }
    match source_dir {
        None => (warned, Err(ArgError::MissingSourceDir)),
        Some(s) => match output {
            None => (warned, Err(ArgError::MissingOutput)),
            Some(o) => (warned, Ok(Args { source_dir: s, output: o, volume_label })),
        },
    }
}

/// `-J`, `-R`, `-joliet` or `-rock`.
pub open spec fn is_long_name_word(t: Seq<char>) -> bool {
    ||| t == seq!['-', 'J']
    ||| t == seq!['-', 'R']
    ||| t == seq!['-', 'j', 'o', 'l', 'i', 'e', 't']
    ||| t == seq!['-', 'r', 'o', 'c', 'k']
}

/// A flag without value that has no effect: a long-name flag, `-v` or `-q`.
pub open spec fn is_no_effect_flag(t: Seq<char>) -> bool {
    ||| is_long_name_word(t)
    ||| t == seq!['-', 'v']
    ||| t == seq!['-', 'q']
}

/// An option that `scan_args` does not know.
pub open spec fn is_unknown_option(t: Seq<char>) -> bool {
    &&& is_option(t)
    &&& t != seq!['-', 'a', 's']
    &&& t != seq!['-', 'o']
    &&& t != seq!['-', 'V']
    &&& !is_no_effect_flag(t)
    &&& t != seq!['-', 'i', 's', 'o', '-', 'l', 'e', 'v', 'e', 'l']
}

/// Index of the argument read after the one at `i`: `-as`, `-o`, `-V` and `-iso-level`
/// take the next argument as their value.
pub open spec fn next_arg(raw: Seq<Seq<char>>, i: int) -> int {
    let t = raw[i];
    if t == seq!['-', 'a', 's'] || t == seq!['-', 'o'] || t == seq!['-', 'V'] {
        i + 2
    } else if is_no_effect_flag(t) {
        i + 1
    } else if t == seq!['-', 'i', 's', 'o', '-', 'l', 'e', 'v', 'e', 'l'] {
        i + 2
    } else {
        i + 1
    }
}

/// Reading from `i` reaches the argument at `j`, passing no unknown option on the way.
pub open spec fn reads_cleanly_to(raw: Seq<Seq<char>>, i: int, j: int) -> bool
    decreases raw.len() + 1 - i,
{
    if i == j {
        true
    } else if i < 0 || i > j || i >= raw.len() {
        false
    } else {
        !is_unknown_option(raw[i]) && reads_cleanly_to(raw, next_arg(raw, i), j)
    }
}

/// Reading from `i` to the end passes no unknown option.
pub open spec fn reads_cleanly(raw: Seq<Seq<char>>, i: int) -> bool
    decreases raw.len() + 1 - i,
{
    if i < 0 || i >= raw.len() {
        true
    } else {
        !is_unknown_option(raw[i]) && reads_cleanly(raw, next_arg(raw, i))
    }
}

/// The last positional argument read from `i` on (`s` when there is none).
pub open spec fn last_source(raw: Seq<Seq<char>>, i: int, s: Option<Seq<char>>) -> Option<Seq<char>>
    decreases raw.len() + 1 - i,
{
    if i < 0 || i >= raw.len() {
        s
    } else {
        let t = raw[i];
        last_source(raw, next_arg(raw, i), if !is_option(t) { Some(t) } else { s })
    }
}

/// What the last `-o` read from `i` on leaves: the argument after it, or nothing when it
/// is the final argument (`o` when there is no `-o`).
pub open spec fn last_output(raw: Seq<Seq<char>>, i: int, o: Option<Seq<char>>) -> Option<Seq<char>>
    decreases raw.len() + 1 - i,
{
    if i < 0 || i >= raw.len() {
        o
    } else {
        let t = raw[i];
        last_output(
            raw,
            next_arg(raw, i),
            if t == seq!['-', 'o'] {
                if i + 1 < raw.len() {
                    Some(raw[i + 1])
                } else {
                    None
                }
            } else {
                o
            },
        )
    }
}

/// The argument after the last `-V` read from `i` on that has one (`l` when there is none).
pub open spec fn last_label(raw: Seq<Seq<char>>, i: int, l: Seq<char>) -> Seq<char>
    decreases raw.len() + 1 - i,
{
    if i < 0 || i >= raw.len() {
        l
    } else {
        let t = raw[i];
        last_label(
            raw,
            next_arg(raw, i),
            if t == seq!['-', 'V'] && i + 1 < raw.len() {
                raw[i + 1]
            } else {
                l
            },
        )
    }
}

/// The outcome of a line without unknown options: the source directory is checked first,
/// then the output.
pub open spec fn outcome_from(
    source: Option<Seq<char>>,
    output: Option<Seq<char>>,
    label: Seq<char>,
) -> ArgOutcome {
    match (source, output) {
        (None, _) => ArgOutcome::MissingSourceDir,
        (Some(_), None) => ArgOutcome::MissingOutput,
        (Some(s), Some(o)) => ArgOutcome::Run { source_dir: s, output: o, volume_label: label },
    }
}

/// Whether `raw` is one of the lines refused before reading: `-as cdrecord ...` or
/// `-devices ...`.
pub open spec fn is_refused_form(raw: Seq<Seq<char>>) -> bool {
    ||| raw.len() >= 2 && raw[0] == seq!['-', 'a', 's'] && raw[1] == seq!['c', 'd', 'r', 'e', 'c', 'o', 'r', 'd']
    ||| raw.len() >= 1 && raw[0] == seq!['-', 'd', 'e', 'v', 'i', 'c', 'e', 's']
}

proof fn lemma_scan_unknown(
    raw: Seq<Seq<char>>,
    i: int,
    j: int,
    output: Option<Seq<char>>,
    label: Seq<char>,
    source: Option<Seq<char>>,
)
    requires
        0 <= j < raw.len(),
        reads_cleanly_to(raw, i, j),
        is_unknown_option(raw[j]),
    ensures
        scan_args(raw, i, output, label, source).1 == ArgOutcome::UnsupportedOption(raw[j]),
    decreases raw.len() + 1 - i,
{
    if i != j {
        let t = raw[i];
        let next = if i + 1 < raw.len() {
            Some(raw[i + 1])
        } else {
            None
        };
        if t == seq!['-', 'a', 's'] || t == seq!['-', 'i', 's', 'o', '-', 'l', 'e', 'v', 'e', 'l'] || (is_no_effect_flag(t) && t != seq!['-', 'o']
            && t != seq!['-', 'V']) {
            lemma_scan_unknown(raw, next_arg(raw, i), j, output, label, source);
        } else if t == seq!['-', 'o'] {
            lemma_scan_unknown(raw, next_arg(raw, i), j, next, label, source);
        } else if t == seq!['-', 'V'] {
            lemma_scan_unknown(
                raw,
                next_arg(raw, i),
                j,
                output,
                match next {
                    Some(l) => l,
                    None => label,
                },
                source,
            );
        } else {
            lemma_scan_unknown(raw, next_arg(raw, i), j, output, label, Some(t));
        }
    }
}

/// The first unknown option that reading meets is refused with its own text, whatever
/// options with or without values (`-o`, `-V`, `-iso-level`, ...) come before it.
pub proof fn law_unknown_option_refused(raw: Seq<Seq<char>>, j: int)
    requires
        0 <= j < raw.len(),
        !is_refused_form(raw),
        reads_cleanly_to(raw, 0, j),
        is_unknown_option(raw[j]),
    ensures
        read_args(raw).1 == ArgOutcome::UnsupportedOption(raw[j]),
{
    lemma_scan_unknown(raw, 0, j, None, seq!['R', 'S', '_', 'X', 'O', 'R', 'R', 'I', 'S', 'O'], None);
}

proof fn lemma_scan_clean(
    raw: Seq<Seq<char>>,
    i: int,
    output: Option<Seq<char>>,
    label: Seq<char>,
    source: Option<Seq<char>>,
)
    requires
        0 <= i,
        reads_cleanly(raw, i),
    ensures
        scan_args(raw, i, output, label, source).1 == outcome_from(
            last_source(raw, i, source),
            last_output(raw, i, output),
            last_label(raw, i, label),
        ),
    decreases raw.len() + 1 - i,
{
    if i < raw.len() {
        let t = raw[i];
        let next = if i + 1 < raw.len() {
            Some(raw[i + 1])
        } else {
            None
        };
        let n = next_arg(raw, i);
        let s2 = if !is_option(t) {
            Some(t)
        } else {
            source
        };
        let o2 = if t == seq!['-', 'o'] {
            next
        } else {
            output
        };
        let l2 = if t == seq!['-', 'V'] && i + 1 < raw.len() {
            raw[i + 1]
        } else {
            label
        };
        lemma_scan_clean(raw, n, o2, l2, s2);
        if t == seq!['-', 'a', 's'] {
            assert(t[0] == '-');
        }
        if t == seq!['-', 'V'] {
            assert(t[0] == '-');
        }
        if t == seq!['-', 'i', 's', 'o', '-', 'l', 'e', 'v', 'e', 'l'] {
            assert(t[0] == '-');
            assert(t != seq!['-', 'o'] && t != seq!['-', 'V']);
        }
        if is_no_effect_flag(t) {
            assert(t[0] == '-');
        }
        if t == seq!['-', 'o'] {
            assert(t[0] == '-');
        }
    }
}

/// A line without unknown options is read argument by argument: its outcome is made of the
/// last positional argument, the value of the last `-o` (none when `-o` is the final
/// argument) and the value of the last `-V` that has one; a missing source directory is
/// reported before a missing output.
pub proof fn law_clean_line_outcome(raw: Seq<Seq<char>>)
    requires
        !is_refused_form(raw),
        reads_cleanly(raw, 0),
    ensures
        read_args(raw).1 == outcome_from(
            last_source(raw, 0, None),
            last_output(raw, 0, None),
            last_label(raw, 0, seq!['R', 'S', '_', 'X', 'O', 'R', 'R', 'I', 'S', 'O']),
        ),
{
    lemma_scan_clean(raw, 0, None, seq!['R', 'S', '_', 'X', 'O', 'R', 'R', 'I', 'S', 'O'], None);
}

/// The arguments from `i` on without the flags that have no effect: `-J`, `-R`, `-joliet`,
/// `-rock`, `-v`, `-q`, and `-iso-level` with its value.
pub open spec fn without_ignored(raw: Seq<Seq<char>>, i: int) -> Seq<Seq<char>>
    decreases raw.len() + 1 - i,
{
    if i < 0 || i >= raw.len() {
        seq![]
    } else {
        let t = raw[i];
        if t == seq!['-', 'a', 's'] || t == seq!['-', 'o'] || t == seq!['-', 'V'] {
            seq![t] + (if i + 1 < raw.len() {
                seq![raw[i + 1]]
            } else {
                seq![]
            }) + without_ignored(raw, i + 2)
        } else if is_no_effect_flag(t) {
            without_ignored(raw, i + 1)
        } else if t == seq!['-', 'i', 's', 'o', '-', 'l', 'e', 'v', 'e', 'l'] {
            without_ignored(raw, i + 2)
        } else {
            seq![t] + without_ignored(raw, i + 1)
        }
    }
}

proof fn lemma_scan_shift(
    p: Seq<Seq<char>>,
    q: Seq<Seq<char>>,
    k: int,
    output: Option<Seq<char>>,
    label: Seq<char>,
    source: Option<Seq<char>>,
)
    requires
        0 <= k,
    ensures
        scan_args(p + q, p.len() + k, output, label, source) == scan_args(
            q,
            k,
            output,
            label,
            source,
        ),
    decreases q.len() + 1 - k,
{
    let r = p + q;
    if k < q.len() {
        assert(r[p.len() + k] == q[k]);
        if k + 1 < q.len() {
            assert(r[p.len() + k + 1] == q[k + 1]);
        }
        let t = q[k];
        let next = if k + 1 < q.len() {
            Some(q[k + 1])
        } else {
            None
        };
        lemma_scan_shift(p, q, k + 1, output, label, source);
        lemma_scan_shift(p, q, k + 1, output, label, Some(t));
        lemma_scan_shift(p, q, k + 2, output, label, source);
        lemma_scan_shift(p, q, k + 2, next, label, source);
        lemma_scan_shift(
            p,
            q,
            k + 2,
            output,
            match next {
                Some(l) => l,
                None => label,
            },
            source,
        );
    }
}

proof fn lemma_without_ignored(
    raw: Seq<Seq<char>>,
    i: int,
    output: Option<Seq<char>>,
    label: Seq<char>,
    source: Option<Seq<char>>,
)
    requires
        0 <= i,
    ensures
        scan_args(without_ignored(raw, i), 0, output, label, source).1 == scan_args(
            raw,
            i,
            output,
            label,
            source,
        ).1,
    decreases raw.len() + 1 - i,
{
    if i < raw.len() {
        let t = raw[i];
        let next = if i + 1 < raw.len() {
            Some(raw[i + 1])
        } else {
            None
        };
        let w = without_ignored(raw, i);
        if t == seq!['-', 'a', 's'] || t == seq!['-', 'o'] || t == seq!['-', 'V'] {
            let pre = seq![t] + (if i + 1 < raw.len() {
                seq![raw[i + 1]]
            } else {
                seq![]
            });
            let rest = without_ignored(raw, i + 2);
            assert(w == pre + rest);
            assert(w[0] == t);
            if i + 1 < raw.len() {
                assert(w[1] == raw[i + 1]);
                let o2 = if t == seq!['-', 'o'] {
                    next
                } else {
                    output
                };
                let l2 = if t == seq!['-', 'V'] {
                    raw[i + 1]
                } else {
                    label
                };
                assert(pre.len() == 2);
                lemma_scan_shift(pre, rest, 0, o2, l2, source);
                lemma_without_ignored(raw, i + 2, o2, l2, source);
                assert(scan_args(w, 2, o2, l2, source) == scan_args(rest, 0, o2, l2, source));
                assert(scan_args(w, 0, output, label, source) == scan_args(w, 2, o2, l2, source));
                assert(scan_args(raw, i, output, label, source) == scan_args(raw, i + 2, o2, l2, source));
            } else {
                assert(rest.len() == 0);
                assert(w =~= seq![t]);
                let o2 = if t == seq!['-', 'o'] {
                    None
                } else {
                    output
                };
                assert(scan_args(w, 2, o2, label, source) == scan_args(raw, i + 2, o2, label, source));
                assert(scan_args(w, 0, output, label, source) == scan_args(w, 2, o2, label, source));
                assert(scan_args(raw, i, output, label, source) == scan_args(raw, i + 2, o2, label, source));
            }
        } else if is_no_effect_flag(t) {
            lemma_without_ignored(raw, i + 1, output, label, source);
        } else if t == seq!['-', 'i', 's', 'o', '-', 'l', 'e', 'v', 'e', 'l'] {
            lemma_without_ignored(raw, i + 2, output, label, source);
        } else {
            let rest = without_ignored(raw, i + 1);
            assert(w == seq![t] + rest);
            assert(w[0] == t);
            lemma_scan_shift(seq![t], rest, 0, output, label, Some(t));
            lemma_without_ignored(raw, i + 1, output, label, Some(t));
            if !is_option(t) {
                assert(scan_args(w, 0, output, label, source) == scan_args(w, 1, output, label, Some(t)));
                assert(scan_args(raw, i, output, label, source) == scan_args(raw, i + 1, output, label, Some(t)));
            }
        }
    }
}

/// Flags that have no effect do not change the outcome: dropping `-J`, `-R`, `-joliet`,
/// `-rock`, `-v`, `-q` and `-iso-level` with its value gives the same outcome, as long as
/// neither line is one of the forms refused before reading.
pub proof fn law_ignored_flags_change_nothing(raw: Seq<Seq<char>>)
    requires
        !is_refused_form(raw),
        !is_refused_form(without_ignored(raw, 0)),
    ensures
        read_args(without_ignored(raw, 0)).1 == read_args(raw).1,
{
    lemma_without_ignored(raw, 0, None, seq!['R', 'S', '_', 'X', 'O', 'R', 'R', 'I', 'S', 'O'], None);
}

/// The arguments that reading takes in turn from `i` on (values of options excluded),
/// up to but not including the first unknown option.
pub open spec fn read_tokens(raw: Seq<Seq<char>>, i: int) -> Seq<Seq<char>>
    decreases raw.len() + 1 - i,
{
    if i < 0 || i >= raw.len() || is_unknown_option(raw[i]) {
        seq![]
    } else {
        seq![raw[i]] + read_tokens(raw, next_arg(raw, i))
    }
}

/// The long-name flags among `s`, in order.
pub open spec fn long_name_flags_in(s: Seq<Seq<char>>) -> Seq<Seq<char>>
    decreases s.len(),
{
    if s.len() == 0 {
        seq![]
    } else {
        (if is_long_name_word(s[0]) {
            seq![s[0]]
        } else {
            seq![]
        }) + long_name_flags_in(s.drop_first())
    }
}

proof fn lemma_scan_warnings(
    raw: Seq<Seq<char>>,
    i: int,
    output: Option<Seq<char>>,
    label: Seq<char>,
    source: Option<Seq<char>>,
)
    requires
        0 <= i,
    ensures
        scan_args(raw, i, output, label, source).0 == long_name_flags_in(read_tokens(raw, i)),
    decreases raw.len() + 1 - i,
{
    if i < raw.len() {
        let t = raw[i];
        let next = if i + 1 < raw.len() {
            Some(raw[i + 1])
        } else {
            None
        };
        let rt = read_tokens(raw, i);
        if !is_unknown_option(t) {
            assert(rt == seq![t] + read_tokens(raw, next_arg(raw, i)));
            assert(rt.drop_first() =~= read_tokens(raw, next_arg(raw, i)));
            assert(rt[0] == t);
        }
        let s2 = if !is_option(t) {
            Some(t)
        } else {
            source
        };
        let o2 = if t == seq!['-', 'o'] {
            next
        } else {
            output
        };
        let l2 = if t == seq!['-', 'V'] {
            match next {
                Some(l) => l,
                None => label,
            }
        } else {
            label
        };
        lemma_scan_warnings(raw, next_arg(raw, i), o2, l2, s2);
        if t == seq!['-', 'a', 's'] || t == seq!['-', 'o'] || t == seq!['-', 'V'] {
            assert(t.len() >= 2 && t[0] == '-');
            assert(!is_long_name_word(t)) by {
                if t == seq!['-', 'a', 's'] {
                    assert(t.len() == 3);
                }
                if t == seq!['-', 'o'] {
                    assert(t[1] == 'o');
                }
                if t == seq!['-', 'V'] {
                    assert(t[1] == 'V');
                }
            }
        }
        if t == seq!['-', 'i', 's', 'o', '-', 'l', 'e', 'v', 'e', 'l'] {
            assert(t.len() == 10);
        }
        if !is_option(t) {
            if is_long_name_word(t) {
                assert(t[0] == '-');
            }
        }
    }
}

/// One warning for each long-name flag (`-J`, `-R`, `-joliet`, `-rock`) that reading takes
/// before the outcome is decided, in order, and no other warning.
pub proof fn law_warnings_are_long_name_flags(raw: Seq<Seq<char>>)
    requires
        !is_refused_form(raw),
    ensures
        read_args(raw).0 == long_name_flags_in(read_tokens(raw, 0)),
{
    lemma_scan_warnings(raw, 0, None, seq!['R', 'S', '_', 'X', 'O', 'R', 'R', 'I', 'S', 'O'], None);
}

} // verus!
