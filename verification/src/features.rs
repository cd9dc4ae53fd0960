//! The arguments of the device harnesses.

use crate::binary64::Binary64;
use crate::text::{decimal, decimal_text, digit_char, same_text};
use vstd::prelude::*;

verus! {

/// A device feature that the harness can show.
#[derive(Clone, Copy, Debug, PartialEq, Eq, Structural)]
pub enum Feature {
    TensorSvd,
    Nvlink,
    Persistent,
    Optix,
}

/// What the harness was asked for.
#[derive(Debug)]
pub struct Flags {
    pub tensor_svd: bool,
    pub nvlink: bool,
    pub persistent: bool,
    pub optix: bool,
    pub photon_dir: String,
}

/// Why the arguments were not taken.
#[derive(Debug)]
pub enum FlagError {
    /// Help was asked for.
    Help,
    /// An argument that means nothing, or a second directory.
    Unknown(String),
    /// No directory was named.
    MissingDir,
}

pub open spec fn is_flag(a: Seq<char>) -> bool {
    a == "--tensor-svd"@ || a == "--nvlink"@ || a == "--persistent"@ || a == "--optix"@
}

pub open spec fn is_help(a: Seq<char>) -> bool {
    a == "-h"@ || a == "--help"@
}

pub open spec fn is_long(a: Seq<char>) -> bool {
    a.len() >= 2 && a[0] == '-' && a[1] == '-'
}

/// An argument that names a directory.
pub open spec fn is_dir(a: Seq<char>) -> bool {
    !is_flag(a) && !is_help(a) && !is_long(a)
}

/// Some argument before `n` names a directory.
pub open spec fn dir_before(args: Seq<String>, n: int) -> bool {
    exists|j: int| 0 <= j < n && is_dir((#[trigger] args[j])@)
}

/// Argument `i` cannot be taken: it asks for help, means nothing, or names a
/// second directory.
pub open spec fn is_bad(args: Seq<String>, i: int) -> bool {
    let a = args[i]@;
    is_help(a) || (!is_flag(a) && (!is_dir(a) || dir_before(args, i)))
}

/// The first argument that cannot be taken.
pub open spec fn first_bad(args: Seq<String>, i: int) -> bool {
    &&& 0 <= i < args.len()
    &&& is_bad(args, i)
    &&& forall|k: int| 0 <= k < i ==> !#[trigger] is_bad(args, k)
}

pub open spec fn has_text(args: Seq<String>, n: int, text: Seq<char>) -> bool {
    exists|j: int| 0 <= j < n && (#[trigger] args[j])@ == text
}

fn starts_long(a: &str) -> (r: bool)
    ensures
        r == is_long(a@),
{
    a.unicode_len() >= 2 && a.get_char(0) == '-' && a.get_char(1) == '-'
}

/// Takes the arguments of the feature harness: any of four flags and one
/// directory.
pub fn parse(args: &Vec<String>) -> (r: Result<Flags, FlagError>)
    ensures
        r matches Ok(f) ==> {
            &&& forall|i: int| 0 <= i < args@.len() ==> !#[trigger] is_bad(args@, i)
            &&& f.tensor_svd == has_text(args@, args@.len() as int, "--tensor-svd"@)
            &&& f.nvlink == has_text(args@, args@.len() as int, "--nvlink"@)
            &&& f.persistent == has_text(args@, args@.len() as int, "--persistent"@)
            &&& f.optix == has_text(args@, args@.len() as int, "--optix"@)
            &&& exists|j: int| 0 <= j < args@.len() && is_dir((#[trigger] args@[j])@) && args@[j]@ == f.photon_dir@
        },
        r matches Err(FlagError::Help) ==> exists|i: int| #[trigger] first_bad(args@, i) && is_help(args@[i]@),
        r matches Err(FlagError::Unknown(t)) ==> exists|i: int| #[trigger]
            first_bad(args@, i) && !is_help(args@[i]@) && args@[i]@ == t@,
        r matches Err(FlagError::MissingDir) <==> {
            &&& forall|i: int| 0 <= i < args@.len() ==> !#[trigger] is_bad(args@, i)
            &&& !dir_before(args@, args@.len() as int)
        },
{
    let mut tensor_svd = false;
    let mut nvlink = false;
    let mut persistent = false;
    let mut optix = false;
    let mut photon_dir: Option<String> = None;
    let mut i: usize = 0;
    proof {
        reveal_strlit("--tensor-svd");
        reveal_strlit("--nvlink");
        reveal_strlit("--persistent");
        reveal_strlit("--optix");
        reveal_strlit("-h");
        reveal_strlit("--help");
        assert("--tensor-svd"@[2] == 't');
        assert("--nvlink"@[2] == 'n');
        assert("--persistent"@[2] == 'p');
        assert("--optix"@[2] == 'o');
        assert("--help"@[2] == 'h');
        assert("-h"@.len() == 2);
    }
    while i < args.len()
        invariant
            "--tensor-svd"@ != "--nvlink"@,
            "--tensor-svd"@ != "--persistent"@,
            "--tensor-svd"@ != "--optix"@,
            "--nvlink"@ != "--persistent"@,
            "--nvlink"@ != "--optix"@,
            "--persistent"@ != "--optix"@,
            !is_help("--tensor-svd"@) && !is_help("--nvlink"@) && !is_help("--persistent"@) && !is_help("--optix"@),
            i <= args@.len(),
            tensor_svd == has_text(args@, i as int, "--tensor-svd"@),
            nvlink == has_text(args@, i as int, "--nvlink"@),
            persistent == has_text(args@, i as int, "--persistent"@),
            optix == has_text(args@, i as int, "--optix"@),
            photon_dir is Some == dir_before(args@, i as int),
            photon_dir matches Some(d) ==> exists|j: int|
                0 <= j < i && is_dir((#[trigger] args@[j])@) && args@[j]@ == d@,
            forall|k: int| 0 <= k < i ==> !#[trigger] is_bad(args@, k),
        decreases args@.len() - i,
    {
        let a = args[i].as_str();
        let ghost at = args@[i as int]@;
        if same_text(a, "--tensor-svd") {
            tensor_svd = true;
        } else if same_text(a, "--nvlink") {
            nvlink = true;
        } else if same_text(a, "--persistent") {
            persistent = true;
        } else if same_text(a, "--optix") {
            optix = true;
        } else if same_text(a, "-h") || same_text(a, "--help") {
            assert(first_bad(args@, i as int));
            return Err(FlagError::Help);
        } else if !starts_long(a) && photon_dir.is_none() {
            photon_dir = Some(a.to_owned());
        } else {
            assert(first_bad(args@, i as int));
            return Err(FlagError::Unknown(a.to_owned()));
        }
        proof {
            assert(!is_bad(args@, i as int));
            assert(has_text(args@, i + 1, "--tensor-svd"@) == (has_text(args@, i as int, "--tensor-svd"@) || at
                == "--tensor-svd"@)) by {
                lemma_has_text_step(args@, i as int, "--tensor-svd"@);
            }
            lemma_has_text_step(args@, i as int, "--nvlink"@);
            lemma_has_text_step(args@, i as int, "--persistent"@);
            lemma_has_text_step(args@, i as int, "--optix"@);
            lemma_dir_before_step(args@, i as int);
        }
        i += 1;
    }
    match photon_dir {
        Some(d) => Ok(Flags { tensor_svd, nvlink, persistent, optix, photon_dir: d }),
        None => Err(FlagError::MissingDir),
    }
}

proof fn lemma_has_text_step(args: Seq<String>, i: int, text: Seq<char>)
    requires
        0 <= i < args.len(),
    ensures
        has_text(args, i + 1, text) == (has_text(args, i, text) || args[i]@ == text),
{
    if has_text(args, i, text) {
        let j = choose|j: int| 0 <= j < i && (#[trigger] args[j])@ == text;
        assert(0 <= j < i + 1 && args[j]@ == text);
    }
    if args[i]@ == text {
        assert(0 <= i < i + 1 && args[i]@ == text);
    }
}

proof fn lemma_dir_before_step(args: Seq<String>, i: int)
    requires
        0 <= i < args.len(),
    ensures
        dir_before(args, i + 1) == (dir_before(args, i) || is_dir(args[i]@)),
{
    if dir_before(args, i) {
        let j = choose|j: int| 0 <= j < i && is_dir((#[trigger] args[j])@);
        assert(0 <= j < i + 1 && is_dir(args[j]@));
    }
    if is_dir(args[i]@) {
        assert(0 <= i < i + 1 && is_dir(args[i]@));
    }
}

/// The features to show, in the order in which they are shown. With none, the
/// harness only prints its help.
pub fn features_to_show(f: &Flags) -> (r: Vec<Feature>)
    ensures
        r@ == (if f.tensor_svd {
            seq![Feature::TensorSvd]
        } else {
            seq![]
        }) + (if f.nvlink {
            seq![Feature::Nvlink]
        } else {
            seq![]
        }) + (if f.persistent {
            seq![Feature::Persistent]
        } else {
            seq![]
        }) + (if f.optix {
            seq![Feature::Optix]
        } else {
            seq![]
        }),
{
    let mut out: Vec<Feature> = Vec::new();
    if f.tensor_svd {
        out.push(Feature::TensorSvd);
    }
    if f.nvlink {
        out.push(Feature::Nvlink);
    }
    if f.persistent {
        out.push(Feature::Persistent);
    }
    if f.optix {
        out.push(Feature::Optix);
    }
    out
}

/// How the link feature is shown: over two devices where there are two, else
/// over two streams of one.
pub fn link_devices(found: i32) -> (r: usize)
    ensures
        r == (if found >= 2 {
            2int
        } else {
            1
        }),
{
    if found >= 2 {
        2
    } else {
        1
    }
}

/// The value of the first `n` decimal digits.
pub open spec fn digits_value(s: Seq<char>, n: nat) -> nat
    decreases n,
{
    if n == 0 {
        0
    } else {
        digits_value(s, (n - 1) as nat) * 10 + (s[n - 1] as nat - '0' as nat) as nat
    }
}

pub open spec fn all_digits(s: Seq<char>) -> bool {
    forall|i: int| 0 <= i < s.len() ==> '0' <= #[trigger] s[i] <= '9'
}

/// The text after an optional plus sign.
pub open spec fn after_plus(s: Seq<char>) -> Seq<char> {
    if s.len() > 0 && s[0] == '+' {
        s.skip(1)
    } else {
        s
    }
}

/// The unsigned number that a text spells: digits, with an optional plus sign.
pub open spec fn whole_number(s: Seq<char>) -> Option<nat> {
    let digits = after_plus(s);
    if digits.len() > 0 && all_digits(digits) && digits_value(digits, digits.len()) <= usize::MAX {
        Some(digits_value(digits, digits.len()))
    } else {
        None
    }
}

proof fn lemma_digits_grow(s: Seq<char>, m: nat, n: nat)
    requires
        m <= n <= s.len(),
        all_digits(s),
    ensures
        digits_value(s, m) <= digits_value(s, n),
    decreases n,
{
    if m < n {
        lemma_digits_grow(s, m, (n - 1) as nat);
        assert('0' <= s[n - 1] <= '9');
    }
}

/// Reads an unsigned number.
pub fn parse_number(text: &str) -> (r: Option<usize>)
    ensures
        whole_number(text@) is Some <==> r is Some,
        r matches Some(n) ==> whole_number(text@) == Some(n as nat),
{
    let n: usize = text.unicode_len();
    let first: usize = if n > 0 && text.get_char(0) == '+' { 1 } else { 0 };
    let ghost digits = after_plus(text@);
    assert(digits =~= text@.skip(first as int));
    if n - first == 0 {
        return None;
    }
    let mut value: usize = 0;
    let mut i: usize = first;
    while i < n
        invariant
            n == text@.len(),
            first <= i <= n,
            digits == after_plus(text@),
            digits == text@.skip(first as int),
            forall|k: int| 0 <= k < i - first ==> '0' <= #[trigger] digits[k] <= '9',
            value == digits_value(digits, (i - first) as nat),
        decreases n - i,
    {
        let c: char = text.get_char(i);
        assert(c == digits[i - first]);
        if c < '0' || c > '9' {
            assert(!all_digits(digits));
            return None;
        }
        let d: usize = c as usize - '0' as usize;
        let ghost m = (i - first + 1) as nat;
        assert(digits_value(digits, m) == value * 10 + d);
        if value > (usize::MAX - d) / 10 {
            proof {
                assert(digits_value(digits, m) > usize::MAX);
                if all_digits(digits) {
                    lemma_digits_grow(digits, m, digits.len());
                }
            }
            return None;
        }
        value = value * 10 + d;
        i += 1;
    }
    assert(all_digits(digits));
    Some(value)
}

/// Argument `i` is the first one with this name that has another after it.
pub open spec fn first_named_pair(args: Seq<String>, name: Seq<char>, i: int) -> bool {
    &&& 0 <= i < args.len() - 1
    &&& args[i]@ == name
    &&& forall|k: int| 0 <= k < i ==> (#[trigger] args[k])@ != name
}

/// The number after the first occurrence of a named argument; the default where
/// there is none or where it is no number.
pub fn parse_flag(args: &Vec<String>, name: &str, default: usize) -> (r: usize)
    ensures
        forall|i: int|
            #[trigger] first_named_pair(args@, name@, i) ==> r == (match whole_number(args@[i + 1]@) {
                Some(n) => n as int,
                None => default as int,
            }),
        (forall|i: int| !#[trigger] first_named_pair(args@, name@, i)) ==> r == default,
{
    let mut i: usize = 0;
    while i < args.len() && args.len() - i > 1
        invariant
            i <= args@.len(),
            forall|k: int| 0 <= k < i ==> (#[trigger] args@[k])@ != name@,
        decreases args@.len() - i,
    {
        if same_text(args[i].as_str(), name) {
            assert(first_named_pair(args@, name@, i as int));
            return match parse_number(args[i + 1].as_str()) {
                Some(n) => n,
                None => default,
            };
        }
        i += 1;
    }
    default
}

/// The number of histories after the arguments from `i` on, `n` so far: each
/// `--n` takes the argument after it, if that is a number.
pub open spec fn histories_from(args: Seq<String>, i: int, n: int) -> int
    decreases args.len() - i,
{
    if i < 0 || i >= args.len() {
        n
    } else if args[i]@ == "--n"@ {
        if i + 1 < args.len() {
            histories_from(
                args,
                i + 2,
                match whole_number(args[i + 1]@) {
                    Some(m) => m as int,
                    None => n,
                },
            )
        } else {
            n
        }
    } else {
        histories_from(args, i + 1, n)
    }
}

/// The number of histories that the arguments after the data directory ask for.
pub fn history_count(args: &Vec<String>, default: usize) -> (r: usize)
    ensures
        r == histories_from(args@, 0, default as int),
{
    let mut n: usize = default;
    let mut i: usize = 0;
    while i < args.len()
        invariant
            i <= args@.len(),
            histories_from(args@, i as int, n as int) == histories_from(args@, 0, default as int),
        decreases args@.len() - i,
    {
        if same_text(args[i].as_str(), "--n") {
            if args.len() - i > 1 {
                if let Some(m) = parse_number(args[i + 1].as_str()) {
                    n = m;
                }
                i += 2;
            } else {
                i += 1;
            }
        } else {
            i += 1;
        }
    }
    n
}

/// How the host samples the energies of a device benchmark.
#[derive(Clone, Copy, Debug, PartialEq, Eq, Structural)]
pub struct HostSampling {
    /// Take every so many energies.
    pub stride: usize,
    /// At least so many are taken.
    pub count: usize,
}

/// Spreads the host's share of `n_bench` energies over all of them.
pub fn host_sampling(n_bench: usize, asked: usize) -> (r: HostSampling)
    requires
        n_bench > 0,
    ensures
        1 <= r.count <= n_bench,
        asked == 0 ==> r.count == 1,
        0 < asked <= n_bench ==> r.count == asked,
        asked > n_bench ==> r.count == n_bench,
        r.stride == n_bench as int / r.count as int,
        r.stride >= 1,
        r.stride * r.count <= n_bench,
{
    let at_least: usize = if asked == 0 { 1 } else { asked };
    let count: usize = if at_least < n_bench { at_least } else { n_bench };
    let stride: usize = n_bench / count;
    proof {
        vstd::arithmetic::div_mod::lemma_fundamental_div_mod(n_bench as int, count as int);
        assert(stride >= 1 && stride * count <= n_bench) by (nonlinear_arith)
            requires
                n_bench == count * stride + n_bench as int % count as int,
                0 <= n_bench as int % count as int,
                (n_bench as int % count as int) < count,
                1 <= count <= n_bench,
        ;
    }
    HostSampling { stride, count }
}

/// Whether a number lies within a range, its ends included.
pub open spec fn within(low: Binary64, high: Binary64) -> spec_fn(Binary64) -> bool {
    |e: Binary64| low.at_most(e) && e.at_most(high)
}

/// Keeps the energies within a range, in order.
pub fn energies_within(energies: &Vec<Binary64>, low: Binary64, high: Binary64) -> (r: Vec<Binary64>)
    ensures
        r@ == energies@.filter(within(low, high)),
{
    let mut out: Vec<Binary64> = Vec::new();
    let mut i: usize = 0;
    proof {
        reveal(Seq::filter);
    }
    while i < energies.len()
        invariant
            i <= energies@.len(),
            out@ == energies@.take(i as int).filter(within(low, high)),
        decreases energies@.len() - i,
    {
        let e: Binary64 = energies[i];
        proof {
            crate::pipeline::lemma_filter_step(energies@, within(low, high), i as int);
        }
        if low.le(e) && e.le(high) {
            out.push(e);
        }
        i += 1;
    }
    assert(energies@.take(i as int) =~= energies@);
    out
}

/// Whether line `i` of a profile of `n` lines is printed: about twenty of them,
/// and the last.
pub fn is_printed(i: usize, n: usize) -> (r: bool)
    requires
        i < n,
    ensures
        r == (i == n - 1 || i as int % (if n < 20 {
            1
        } else {
            n as int / 20
        }) == 0),
{
    let every: usize = if n < 20 { 1 } else { n / 20 };
    i % every == 0 || i == n - 1
}

/// The exit code of a validation: 2 unless every test passed.
pub fn validation_exit(passes: &Vec<bool>) -> (r: u8)
    ensures
        r == (if forall|i: int| 0 <= i < passes@.len() ==> #[trigger] passes@[i] {
            0int
        } else {
            2
        }),
        r == 2 <==> passes@.contains(false),
{
    let mut i: usize = 0;
    while i < passes.len()
        invariant
            i <= passes@.len(),
            forall|k: int| 0 <= k < i ==> #[trigger] passes@[k],
        decreases passes@.len() - i,
    {
        if !passes[i] {
            assert(passes@[i as int] == false);
            return 2;
        }
        i += 1;
    }
    0
}

/// The features that are shown are those whose flag is set, each once.
pub proof fn law_flagged_features_are_shown(f: &Flags, r: Vec<Feature>)
    requires
        call_ensures(features_to_show, (f,), r),
    ensures
        r@.contains(Feature::TensorSvd) <==> f.tensor_svd,
        r@.contains(Feature::Nvlink) <==> f.nvlink,
        r@.contains(Feature::Persistent) <==> f.persistent,
        r@.contains(Feature::Optix) <==> f.optix,
        r@.no_duplicates(),
{
    let one: int = if f.tensor_svd {
        1
    } else {
        0
    };
    let two: int = one + if f.nvlink {
        1int
    } else {
        0
    };
    let three: int = two + if f.persistent {
        1int
    } else {
        0
    };
    if f.tensor_svd {
        assert(r@[0] == Feature::TensorSvd);
    }
    if f.nvlink {
        assert(r@[one] == Feature::Nvlink);
    }
    if f.persistent {
        assert(r@[two] == Feature::Persistent);
    }
    if f.optix {
        assert(r@[three] == Feature::Optix);
    }
}

/// Every argument of a call that is understood is a flag or the one directory, and
/// a flag is set exactly where it was given; a call without a directory is refused.
pub proof fn law_flags_are_those_given(args: &Vec<String>, r: Result<Flags, FlagError>, i: int)
    requires
        call_ensures(parse, (args,), r),
        0 <= i < args@.len(),
    ensures
        r matches Ok(f) ==> {
            &&& args@[i]@ == "--tensor-svd"@ ==> f.tensor_svd
            &&& args@[i]@ == "--nvlink"@ ==> f.nvlink
            &&& args@[i]@ == "--persistent"@ ==> f.persistent
            &&& args@[i]@ == "--optix"@ ==> f.optix
            &&& args@[i]@ != "-h"@ && args@[i]@ != "--help"@
            &&& args@[i]@ == "--tensor-svd"@ || args@[i]@ == "--nvlink"@ || args@[i]@ == "--persistent"@ || args@[i]@
                == "--optix"@ || args@[i]@ == f.photon_dir@
        },
        r matches Ok(f) ==> (f.tensor_svd ==> exists|j: int|
            0 <= j < args@.len() && (#[trigger] args@[j])@ == "--tensor-svd"@),
        r matches Ok(f) ==> (f.nvlink ==> exists|j: int|
            0 <= j < args@.len() && (#[trigger] args@[j])@ == "--nvlink"@),
        r matches Ok(f) ==> (f.persistent ==> exists|j: int|
            0 <= j < args@.len() && (#[trigger] args@[j])@ == "--persistent"@),
        r matches Ok(f) ==> (f.optix ==> exists|j: int|
            0 <= j < args@.len() && (#[trigger] args@[j])@ == "--optix"@),
{
    if let Ok(f) = r {
        assert(!is_bad(args@, i));
        let j = choose|j: int| 0 <= j < args@.len() && is_dir((#[trigger] args@[j])@) && args@[j]@ == f.photon_dir@;
        assert(!is_bad(args@, j));
        if is_dir(args@[i]@) {
            if i < j {
                assert(dir_before(args@, j));
            } else if j < i {
                assert(dir_before(args@, i));
            }
        }
        assert(has_text(args@, args@.len() as int, args@[i]@));
    }
}

/// A validation exits with 0 exactly where every part of it passed, else with 2.
pub proof fn law_validation_exits_clean_on_all_passes(passes: &Vec<bool>, r: u8)
    requires
        call_ensures(validation_exit, (passes,), r),
    ensures
        r == 0 <==> !passes@.contains(false),
        r == 2 <==> passes@.contains(false),
{
}

/// The energies that are kept are those between the bounds, the bounds included.
pub proof fn law_energies_between_bounds_are_kept(
    energies: &Vec<Binary64>,
    low: Binary64,
    high: Binary64,
    r: Vec<Binary64>,
    e: Binary64,
)
    requires
        call_ensures(energies_within, (energies, low, high), r),
    ensures
        r@.contains(e) <==> energies@.contains(e) && !e.nan() && !low.nan() && !high.nan() && low.scaled()
            <= e.scaled() <= high.scaled(),
{
    broadcast use vstd::seq_lib::group_filter_ensures;

    let p = within(low, high);
    if r@.contains(e) {
        let i = choose|i: int| 0 <= i < r@.len() && r@[i] == e;
        assert(p(r@[i]));
        energies@.lemma_filter_contains_rev(p, e);
    }
    if energies@.contains(e) && p(e) {
        let i = choose|i: int| 0 <= i < energies@.len() && energies@[i] == e;
        assert(p(energies@[i]));
    }
}

/// The host takes as many samples as were asked for, but at least one and no more
/// than there are, and its steps stay within them; the first and the last sample are
/// always printed, and all of them where there are fewer than twenty.
pub proof fn law_host_samples_and_prints(
    n: usize,
    asked: usize,
    s: HostSampling,
    i: usize,
    printed: bool,
)
    requires
        call_ensures(host_sampling, (n, asked), s),
        call_ensures(is_printed, (i, n), printed),
        i < n,
    ensures
        1 <= asked <= n ==> s.count == asked,
        asked == 0 ==> s.count == 1,
        asked > n ==> s.count == n,
        s.stride * s.count <= n && s.stride >= 1,
        n < s.stride * s.count + s.count,
        i == 0 || i == n - 1 || n < 20 ==> printed,
        20 <= n < 40 ==> printed,
        printed && i != n - 1 && n >= 20 ==> i as int % (n as int / 20) == 0,
{
    let c = s.count as int;
    assert(n as int == c * (n as int / c) + n as int % c && 0 <= n as int % c < c) by (nonlinear_arith)
        requires
            c > 0,
            n >= 0,
    ;
    assert(c * (n as int / c) == (n as int / c) * c) by (nonlinear_arith);
    let q = if n < 20 {
        1
    } else {
        n as int / 20
    };
    assert(0int % q == 0 && i as int % 1 == 0) by (nonlinear_arith)
        requires
            q > 0,
    ;
}

/// Two devices are linked exactly where there are at least two.
pub proof fn law_links_need_two_devices(found: i32, r: usize)
    requires
        call_ensures(link_devices, (found,), r),
    ensures
        r == 2 <==> found >= 2,
        r == 1 <==> found < 2,
{
}

/// The value of a flag is the number after its first mention, and the default where
/// it is not mentioned, or what follows is not a number.
pub proof fn law_flag_value_follows_its_name(args: &Vec<String>, name: &str, default: usize, r: usize, i: int)
    requires
        call_ensures(parse_flag, (args, name, default), r),
        0 <= i,
        i + 1 < args@.len(),
        args@[i]@ == name@,
        forall|k: int| 0 <= k < i ==> (#[trigger] args@[k])@ != name@,
    ensures
        whole_number(args@[i + 1]@) matches Some(n) ==> r == n,
        whole_number(args@[i + 1]@) is None ==> r == default,
{
    assert(first_named_pair(args@, name@, i));
}

proof fn lemma_histories_without(args: Seq<String>, i: int, n: int)
    requires
        0 <= i,
        forall|k: int| i <= k < args.len() ==> (#[trigger] args[k])@ != "--n"@,
    ensures
        histories_from(args, i, n) == n,
    decreases args.len() - i,
{
    if i < args.len() {
        assert(args[i]@ != "--n"@);
        lemma_histories_without(args, i + 1, n);
    }
}

proof fn lemma_histories_at(args: Seq<String>, i: int, at: int, n: int)
    requires
        0 <= i <= at,
        at + 1 < args.len(),
        args[at]@ == "--n"@,
        forall|k: int| i <= k < args.len() && k != at ==> (#[trigger] args[k])@ != "--n"@,
    ensures
        histories_from(args, i, n) == match whole_number(args[at + 1]@) {
            Some(m) => m as int,
            None => n,
        },
    decreases at - i,
{
    if i < at {
        assert(args[i]@ != "--n"@);
        lemma_histories_at(args, i + 1, at, n);
    } else {
        lemma_histories_without(
            args,
            at + 2,
            match whole_number(args[at + 1]@) {
                Some(m) => m as int,
                None => n,
            },
        );
    }
}

/// The number of histories is the one after `--n`, and the default where that is not
/// given or is not a number.
pub proof fn law_histories_are_those_asked_for(args: &Vec<String>, default: usize, r: usize, at: int)
    requires
        call_ensures(history_count, (args, default), r),
    ensures
        (forall|k: int| 0 <= k < args@.len() ==> (#[trigger] args@[k])@ != "--n"@) ==> r == default,
        0 <= at && at + 1 < args@.len() && args@[at]@ == "--n"@ && (forall|k: int|
            0 <= k < args@.len() && k != at ==> (#[trigger] args@[k])@ != "--n"@) ==> (whole_number(
            args@[at + 1]@,
        ) matches Some(n) ==> r == n) && (whole_number(args@[at + 1]@) is None ==> r == default),
{
    if forall|k: int| 0 <= k < args@.len() ==> (#[trigger] args@[k])@ != "--n"@ {
        lemma_histories_without(args@, 0, default as int);
    }
    if 0 <= at && at + 1 < args@.len() && args@[at]@ == "--n"@ && (forall|k: int|
        0 <= k < args@.len() && k != at ==> (#[trigger] args@[k])@ != "--n"@) {
        lemma_histories_at(args@, 0, at, default as int);
    }
}

/// A number is read digit by digit: one more digit makes it ten times the number
/// before, plus the digit. A text with anything but digits is not a number.
pub proof fn law_numbers_are_read_in_tens(a: &str, b: &str, ra: Option<usize>, rb: Option<usize>)
    requires
        call_ensures(parse_number, (a,), ra),
        call_ensures(parse_number, (b,), rb),
        a@.len() > 0,
        '0' <= a@[0] <= '9',
        b@.len() == a@.len() + 1,
        forall|i: int| 0 <= i < a@.len() ==> #[trigger] b@[i] == a@[i],
    ensures
        rb matches Some(n) ==> ra is Some && '0' <= b@.last() <= '9' && n == 10 * ra->0 + (b@.last() as int - '0' as int),
        ra is Some && '0' <= b@.last() <= '9' && 10 * ra->0 + (b@.last() as int - '0' as int) <= usize::MAX ==> rb is Some,
        a@.len() == 1 ==> ra == Some((a@[0] as int - '0' as int) as usize),
{
    lemma_digits_of_prefix(a@, b@, a@.len());
    assert(after_plus(a@) == a@);
    assert(b@[0] == a@[0]);
    assert(after_plus(b@) == b@);
    assert(digits_value(b@, b@.len()) == digits_value(b@, a@.len()) * 10 + (b@.last() as nat - '0' as nat) as nat);
    if all_digits(b@) {
        assert forall|i: int| 0 <= i < a@.len() implies '0' <= #[trigger] a@[i] <= '9' by {
            assert('0' <= b@[i] <= '9');
        }
        assert(digits_value(a@, a@.len()) <= digits_value(b@, b@.len()));
    }
    if all_digits(a@) && '0' <= b@.last() <= '9' {
        assert forall|i: int| 0 <= i < b@.len() implies '0' <= #[trigger] b@[i] <= '9' by {
            if i < a@.len() {
                assert('0' <= a@[i] <= '9');
            }
        }
    }
    if a@.len() == 1 {
        reveal_with_fuel(digits_value, 3);
        assert(all_digits(a@));
    }
}

proof fn lemma_digits_of_prefix(a: Seq<char>, b: Seq<char>, n: nat)
    requires
        n <= a.len() < b.len(),
        forall|i: int| 0 <= i < a.len() ==> #[trigger] b[i] == a[i],
    ensures
        digits_value(a, n) == digits_value(b, n),
    decreases n,
{
    if n > 0 {
        lemma_digits_of_prefix(a, b, (n - 1) as nat);
        assert(b[n - 1] == a[n - 1]);
    }
}

proof fn lemma_decimal_digits(n: int)
    requires
        n >= 0,
    ensures
        decimal(n).len() > 0,
        all_digits(decimal(n)),
        digits_value(decimal(n), decimal(n).len()) == n,
    decreases n,
{
    if n < 10 {
        reveal_with_fuel(digits_value, 3);
        let s = decimal(n);
        assert(s.len() == 1 && s[0] == digit_char(n));
        lemma_digit(n);
    } else {
        lemma_decimal_digits(n / 10);
        let head = decimal(n / 10);
        let s = decimal(n);
        let d = n % 10;
        lemma_digit(d);
        assert(s == head.push(digit_char(d)));
        assert forall|i: int| 0 <= i < s.len() implies '0' <= #[trigger] s[i] <= '9' by {
            if i < head.len() {
                assert(s[i] == head[i]);
            }
        }
        lemma_digits_of_prefix(head, s, head.len());
        assert(digits_value(s, s.len()) == digits_value(s, head.len()) * 10 + (s[head.len() as int] as nat
            - '0' as nat) as nat);
    }
}

proof fn lemma_digit(d: int)
    requires
        0 <= d < 10,
    ensures
        '0' <= digit_char(d) <= '9',
        digit_char(d) as int - '0' as int == d,
{
}

/// A number that was written in decimal is read back.
pub proof fn law_decimal_numbers_are_read_back(n: u64, written: String, text: &str, r: Option<usize>)
    requires
        call_ensures(decimal_text, (n,), written),
        call_ensures(parse_number, (text,), r),
        text@ == written@,
        n <= usize::MAX,
    ensures
        r is Some && r->0 == n,
{
    lemma_decimal_digits(n as int);
    let s = decimal(n as int);
    assert('0' <= s[0] <= '9');
    assert(after_plus(s) == s);
}

} // verus!
