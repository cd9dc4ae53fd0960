//! Text as sequences of characters.

use vstd::prelude::*;

verus! {

/// The characters of a text.
pub fn chars_of(s: &str) -> (r: Vec<char>)
    ensures
        r@ == s@,
{
    let mut out: Vec<char> = Vec::new();
    for c in it: s.chars()
        invariant
            out@.len() == it.index(),
            forall|i: int| 0 <= i < out@.len() ==> out@[i] == it.seq()[i],
            it.seq() == s@,
    {
        out.push(c);
    }
    out
}

/// Whether two texts are the same.
pub fn same_text(a: &str, b: &str) -> (r: bool)
    ensures
        r == (a@ == b@),
{
    a.to_owned() == b.to_owned()
}

/// `needle` stands in `hay` at position `i`.
pub open spec fn occurs_at(hay: Seq<char>, needle: Seq<char>, i: int) -> bool {
    0 <= i && i + needle.len() <= hay.len() && hay.subrange(i, i + needle.len()) == needle
}

/// `needle` stands somewhere in `hay`.
pub open spec fn occurs_in(hay: Seq<char>, needle: Seq<char>) -> bool {
    exists|i: int| occurs_at(hay, needle, i)
}

/// Whether `needle` stands somewhere in `hay`.
pub fn contains_text(hay: &str, needle: &str) -> (r: bool)
    ensures
        r == occurs_in(hay@, needle@),
{
    let h = chars_of(hay);
    let n = chars_of(needle);
    let len: usize = h.len();
    let mut i: usize = 0;
    while i <= len && n.len() <= len - i
        invariant
            len == h@.len(),
            h@ == hay@,
            n@ == needle@,
            i <= h@.len() + 1,
            forall|k: int| 0 <= k < i ==> !#[trigger] occurs_at(h@, n@, k),
        decreases h@.len() + 1 - i,
    {
        let mut j: usize = 0;
        while j < n.len() && h[i + j] == n[j]
            invariant
                len == h@.len(),
                i + n@.len() <= len,
                j <= n@.len(),
                forall|k: int| 0 <= k < j ==> h@[i + k] == n@[k],
            decreases n@.len() - j,
        {
            j += 1;
        }
        if j == n.len() {
            assert(h@.subrange(i as int, i + n@.len()) =~= n@);
            assert(occurs_at(h@, n@, i as int));
            return true;
        }
        assert(!occurs_at(h@, n@, i as int)) by {
            assert(h@.subrange(i as int, i + n@.len())[j as int] == h@[i + j]);
        }
        i += 1;
    }
    false
}

/// `a` comes before `b` in the order of bytes, a prefix before what it begins.
pub open spec fn bytes_before(a: Seq<u8>, b: Seq<u8>) -> bool
    decreases a.len(),
{
    if b.len() == 0 {
        false
    } else if a.len() == 0 {
        true
    } else if a[0] != b[0] {
        a[0] < b[0]
    } else {
        bytes_before(a.skip(1), b.skip(1))
    }
}

/// Whether `a` comes before `b` in the order of bytes.
pub fn are_bytes_before(a: &Vec<u8>, b: &Vec<u8>) -> (r: bool)
    ensures
        r == bytes_before(a@, b@),
{
    let mut i: usize = 0;
    proof {
        assert(a@.skip(0) =~= a@);
        assert(b@.skip(0) =~= b@);
    }
    while i < a.len() && i < b.len()
        invariant
            i <= a@.len(),
            i <= b@.len(),
            bytes_before(a@, b@) == bytes_before(a@.skip(i as int), b@.skip(i as int)),
        decreases a@.len() - i,
    {
        if a[i] != b[i] {
            return a[i] < b[i];
        }
        proof {
            assert(a@.skip(i as int).skip(1) =~= a@.skip(i + 1));
            assert(b@.skip(i as int).skip(1) =~= b@.skip(i + 1));
        }
        i += 1;
    }
    i < b.len()
}

/// The order of bytes is irreflexive, total and antisymmetric.
pub proof fn law_byte_order_is_total(a: Seq<u8>, b: Seq<u8>)
    ensures
        !bytes_before(a, a),
        a != b ==> bytes_before(a, b) || bytes_before(b, a),
        !(bytes_before(a, b) && bytes_before(b, a)),
    decreases a.len(),
{
    if a.len() > 0 && b.len() > 0 {
        law_byte_order_is_total(a.skip(1), b.skip(1));
        if a[0] == b[0] {
            assert(a =~= seq![a[0]] + a.skip(1));
            assert(b =~= seq![b[0]] + b.skip(1));
        }
    } else if a.len() > 0 {
        law_byte_order_is_total(a.skip(1), b);
    } else if b.len() == 0 {
        assert(a =~= b);
    }
}

/// The order of bytes is transitive.
pub proof fn law_byte_order_is_transitive(a: Seq<u8>, b: Seq<u8>, c: Seq<u8>)
    requires
        bytes_before(a, b),
        bytes_before(b, c),
    ensures
        bytes_before(a, c),
    decreases a.len(),
{
    if a.len() > 0 && a[0] == b[0] && b[0] == c[0] {
        law_byte_order_is_transitive(a.skip(1), b.skip(1), c.skip(1));
    }
}

/// The decimal digit for a value below ten.
pub open spec fn digit_char(d: int) -> char {
    (('0' as u32) + d) as char
}

/// A number in decimal, without leading zeros.
pub open spec fn decimal(n: int) -> Seq<char>
    decreases n,
{
    if n < 10 {
        seq![digit_char(n)]
    } else {
        decimal(n / 10).push(digit_char(n % 10))
    }
}

fn digit_text(d: u64) -> (r: &'static str)
    requires
        d < 10,
    ensures
        r@ == seq![digit_char(d as int)],
{
    proof {
        reveal_strlit("0");
        reveal_strlit("1");
        reveal_strlit("2");
        reveal_strlit("3");
        reveal_strlit("4");
        reveal_strlit("5");
        reveal_strlit("6");
        reveal_strlit("7");
        reveal_strlit("8");
        reveal_strlit("9");
    }
    if d == 0 {
        "0"
    } else if d == 1 {
        "1"
    } else if d == 2 {
        "2"
    } else if d == 3 {
        "3"
    } else if d == 4 {
        "4"
    } else if d == 5 {
        "5"
    } else if d == 6 {
        "6"
    } else if d == 7 {
        "7"
    } else if d == 8 {
        "8"
    } else {
        "9"
    }
}

/// Appends a number in decimal.
pub fn append_decimal(s: &mut String, n: u64)
    ensures
        final(s)@ == old(s)@ + decimal(n as int),
    decreases n,
{
    if n >= 10 {
        append_decimal(s, n / 10);
    }
    s.append(digit_text(n % 10));
    proof {
        if n >= 10 {
            assert(s@ =~= old(s)@ + decimal(n as int / 10) + seq![digit_char(n as int % 10)]);
        }
        assert(s@ =~= old(s)@ + decimal(n as int));
    }
}

/// A number in decimal.
pub fn decimal_text(n: u64) -> (r: String)
    ensures
        r@ == decimal(n as int),
{
    let mut s = String::new();
    append_decimal(&mut s, n);
    assert(s@ =~= decimal(n as int));
    s
}

/// Whether a list holds a text.
pub fn holds_text(list: &Vec<String>, s: &str) -> (r: bool)
    ensures
        r == exists|i: int| 0 <= i < list@.len() && (#[trigger] list@[i])@ == s@,
{
    let mut i: usize = 0;
    while i < list.len()
        invariant
            i <= list@.len(),
            forall|k: int| 0 <= k < i ==> (#[trigger] list@[k])@ != s@,
        decreases list@.len() - i,
    {
        if same_text(list[i].as_str(), s) {
            return true;
        }
        i += 1;
    }
    false
}

/// A text holds another exactly where it is that text with something before and after
/// it, which may be nothing.
pub proof fn law_text_holds_its_parts(hay: &str, needle: &str, r: bool, before: Seq<char>, after: Seq<char>)
    requires
        call_ensures(contains_text, (hay, needle), r),
    ensures
        hay@ == before + needle@ + after ==> r,
        r ==> exists|a: Seq<char>, b: Seq<char>| hay@ == #[trigger] (a + needle@ + b),
{
    if hay@ == before + needle@ + after {
        let at = before.len() as int;
        assert(hay@.subrange(at, at + needle@.len()) =~= needle@);
        assert(occurs_at(hay@, needle@, at));
    }
    if r {
        let i = choose|i: int| occurs_at(hay@, needle@, i);
        let n = i + needle@.len();
        assert(hay@ =~= hay@.take(i) + hay@.subrange(i, n) + hay@.skip(n));
        assert(hay@ == hay@.take(i) + needle@ + hay@.skip(n));
    }
}

/// The order of file names is that of the first byte in which they differ; a name comes
/// before every longer one that it begins.
pub proof fn law_first_difference_orders_names(a: &Vec<u8>, b: &Vec<u8>, r: bool, i: int)
    requires
        call_ensures(are_bytes_before, (a, b), r),
        0 <= i <= a@.len(),
        i <= b@.len(),
        a@.take(i) == b@.take(i),
    ensures
        i < a@.len() && i < b@.len() && a@[i] != b@[i] ==> r == (a@[i] < b@[i]),
        i == a@.len() && i < b@.len() ==> r,
        i == b@.len() ==> !r,
{
    lemma_common_start(a@, b@, i);
}

proof fn lemma_common_start(a: Seq<u8>, b: Seq<u8>, i: int)
    requires
        0 <= i <= a.len(),
        i <= b.len(),
        a.take(i) == b.take(i),
    ensures
        bytes_before(a, b) == bytes_before(a.skip(i), b.skip(i)),
    decreases i,
{
    if i > 0 {
        assert(a.take(i)[0] == a[0] && b.take(i)[0] == b[0]);
        assert(a.skip(1).take(i - 1) =~= a.take(i).skip(1));
        assert(b.skip(1).take(i - 1) =~= b.take(i).skip(1));
        lemma_common_start(a.skip(1), b.skip(1), i - 1);
        assert(a.skip(1).skip(i - 1) =~= a.skip(i));
        assert(b.skip(1).skip(i - 1) =~= b.skip(i));
    } else {
        assert(a.skip(0) =~= a);
        assert(b.skip(0) =~= b);
    }
}

} // verus!
