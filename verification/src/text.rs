//! Verified text utilities for attribute files: whitespace trimming, decimal
//! integer parsing and formatting, and splitting on spaces.

use vstd::prelude::*;

verus! {

/// The whitespace characters trimmed from attribute text: space, tab,
/// line feed and carriage return.
pub open spec fn is_space(c: char) -> bool {
    c == ' ' || c == '\t' || c == '\n' || c == '\r'
}

/// A decimal digit.
pub open spec fn is_digit(c: char) -> bool {
    '0' <= c && c <= '9'
}

/// Whether `p` is a prefix of `s`.
pub open spec fn starts_with(s: Seq<char>, p: Seq<char>) -> bool {
    p.len() <= s.len() && (forall|i: int| 0 <= i < p.len() ==> s[i] == p[i])
}

/// Character-for-character string equality.
pub fn str_eq(a: &str, b: &str) -> (r: bool)
    ensures
        r == (a@ == b@),
{
    let alen = a.unicode_len();
    let blen = b.unicode_len();
    if alen != blen {
        assert(a@ != b@) by {
            assert(a@.len() != b@.len());
        }
        return false;
    }
    let mut i: usize = 0;
    while i < alen
        invariant
            alen == a@.len() && alen == b@.len(),
            i <= alen,
            forall|k: int| 0 <= k < i ==> a@[k] == b@[k],
        decreases alen - i,
    {
        if a.get_char(i) != b.get_char(i) {
            return false;
        }
        i += 1;
    }
    assert(a@ =~= b@);
    true
}

/// `s` with all leading and trailing whitespace removed.
pub open spec fn trim_spec(s: Seq<char>) -> Seq<char>
    decreases s.len(),
{
    if s.len() == 0 {
        s
    } else if is_space(s[0]) {
        trim_spec(s.skip(1))
    } else if is_space(s[s.len() - 1]) {
        trim_spec(s.take(s.len() - 1))
    } else {
        s
    }
}

/// Runtime test for [`is_space`].
pub fn is_space_char(c: char) -> (r: bool)
    ensures
        r == is_space(c),
{
    c == ' ' || c == '\t' || c == '\n' || c == '\r'
}

/// Copies `s` without its leading and trailing whitespace.
pub fn trim(s: &str) -> (r: String)
    ensures
        r@ == trim_spec(s@),
{
    let len = s.unicode_len();
    let mut lo: usize = 0;
    let mut hi: usize = len;
    proof {
        assert(s@.subrange(0, len as int) =~= s@);
    }
    loop
        invariant
            lo <= hi <= len,
            len == s@.len(),
            trim_spec(s@) == trim_spec(s@.subrange(lo as int, hi as int)),
        ensures
            lo <= hi <= len,
            len == s@.len(),
            trim_spec(s@) == trim_spec(s@.subrange(lo as int, hi as int)),
            lo == hi || (!is_space(s@[lo as int]) && !is_space(s@[hi - 1])),
        decreases hi - lo,
    {
        let ghost sub = s@.subrange(lo as int, hi as int);
        if lo < hi && is_space_char(s.get_char(lo)) {
            proof {
                assert(sub[0] == s@[lo as int]);
                assert(sub.skip(1) =~= s@.subrange(lo as int + 1, hi as int));
            }
            lo += 1;
        } else if lo < hi && is_space_char(s.get_char(hi - 1)) {
            proof {
                assert(sub[sub.len() - 1] == s@[hi - 1]);
                assert(sub.take(sub.len() - 1) =~= s@.subrange(lo as int, hi - 1));
            }
            hi -= 1;
        } else {
            break;
        }
    }
    proof {
        let sub = s@.subrange(lo as int, hi as int);
        if lo == hi {
            assert(sub.len() == 0);
        } else {
            assert(sub[0] == s@[lo as int]);
            assert(sub[sub.len() - 1] == s@[hi - 1]);
        }
        assert(trim_spec(sub) == sub);
    }
    String::from_str(s.substring_char(lo, hi))
}

/// The numeric value of a decimal digit character.
pub open spec fn digit_val(c: char) -> int {
    c as int - '0' as int
}

/// The decimal digit character for a value between 0 and 9.
pub open spec fn digit_char(d: int) -> char {
    (d + '0' as int) as char
}

/// Whether every character of `s` is a decimal digit.
pub open spec fn all_digits(s: Seq<char>) -> bool {
    forall|i: int| 0 <= i < s.len() ==> is_digit(s[i])
}

/// The value of a string of decimal digits, most significant first.
pub open spec fn digits_val(s: Seq<char>) -> int
    decreases s.len(),
{
    if s.len() == 0 {
        0
    } else {
        10 * digits_val(s.take(s.len() - 1)) + digit_val(s[s.len() - 1])
    }
}

/// The integer a piece of text denotes: an optional sign followed by at least
/// one decimal digit. `None` when the text has any other shape.
pub open spec fn parse_int_spec(s: Seq<char>) -> Option<int> {
    if s.len() > 0 && (s[0] == '-' || s[0] == '+') {
        let ds = s.skip(1);
        if ds.len() > 0 && all_digits(ds) {
            if s[0] == '-' {
                Some(-digits_val(ds))
            } else {
                Some(digits_val(ds))
            }
        } else {
            None
        }
    } else if s.len() > 0 && all_digits(s) {
        Some(digits_val(s))
    } else {
        None
    }
}

/// A digit string has a value of at least zero.
pub proof fn lemma_digits_val_nonneg(s: Seq<char>)
    requires
        all_digits(s),
    ensures
        digits_val(s) >= 0,
    decreases s.len(),
{
    if s.len() > 0 {
        assert(forall|i: int| 0 <= i < s.len() - 1 ==> #[trigger] s.take(s.len() - 1)[i] == s[i]);
        lemma_digits_val_nonneg(s.take(s.len() - 1));
    }
}

/// Extending a digit string never lowers its value.
pub proof fn lemma_digits_val_monotone(s: Seq<char>, i: int, j: int)
    requires
        all_digits(s),
        0 <= i <= j <= s.len(),
    ensures
        digits_val(s.take(i)) <= digits_val(s.take(j)),
    decreases j - i,
{
    if i < j {
        assert(forall|k: int| 0 <= k < j ==> is_digit(#[trigger] s.take(j)[k])) by {
            assert(forall|k: int| 0 <= k < j ==> s.take(j)[k] == s[k]);
        }
        assert(s.take(j).take(j - 1) =~= s.take(j - 1));
        assert(forall|k: int| 0 <= k < j - 1 ==> #[trigger] s.take(j - 1)[k] == s[k]);
        lemma_digits_val_nonneg(s.take(j - 1));
        assert(digits_val(s.take(j)) == 10 * digits_val(s.take(j - 1)) + digit_val(s[j - 1]));
        assert(digits_val(s.take(j - 1)) <= digits_val(s.take(j)));
        lemma_digits_val_monotone(s, i, j - 1);
    }
}

/// Runtime test for [`is_digit`].
pub fn is_digit_char(c: char) -> (r: bool)
    ensures
        r == is_digit(c),
{
    '0' <= c && c <= '9'
}

/// The value of a decimal digit character.
pub fn digit_of(c: char) -> (d: usize)
    requires
        is_digit(c),
    ensures
        0 <= d <= 9,
        d == digit_val(c),
{
    (c as u32 - 48) as usize
}

/// Parses text as a signed decimal integer; `None` when the text is not an
/// optional sign followed by at least one digit, or the value does not fit.
pub fn parse_isize(s: &str) -> (r: Option<isize>)
    ensures
        match parse_int_spec(s@) {
            Some(v) => r == if isize::MIN <= v <= isize::MAX {
                Some(v as isize)
            } else {
                None::<isize>
            },
            None => r is None,
        },
{
    let len = s.unicode_len();
    if len == 0 {
        return None;
    }
    let c0 = s.get_char(0);
    let neg = c0 == '-';
    let start: usize = if c0 == '-' || c0 == '+' {
        1
    } else {
        0
    };
    if len == start {
        return None;
    }
    let ghost ds = s@.skip(start as int);
    // The value accumulates negated so that `isize::MIN` is reachable.
    let mut acc: isize = 0;
    let mut i: usize = start;
    while i < len
        invariant
            len == s@.len(),
            start <= i <= len,
            start < len,
            start == 0 || start == 1,
            start == 1 ==> (s@[0] == '-' || s@[0] == '+'),
            start == 0 ==> !(s@[0] == '-' || s@[0] == '+'),
            neg == (s@[0] == '-'),
            ds == s@.skip(start as int),
            all_digits(ds.take(i - start)),
            acc <= 0,
            acc as int == -digits_val(ds.take(i - start)),
        decreases len - i,
    {
        let c = s.get_char(i);
        proof {
            assert(ds[i - start] == s@[i as int]);
        }
        if !is_digit_char(c) {
            proof {
                assert(!all_digits(ds));
                assert(parse_int_spec(s@) is None);
            }
            return None;
        }
        let d = digit_of(c);
        let ghost pre = ds.take(i - start);
        let ghost post = ds.take(i + 1 - start);
        proof {
            assert(post.take(post.len() - 1) =~= pre);
            assert(post[post.len() - 1] == ds[i - start]);
            assert(digits_val(post) == 10 * digits_val(pre) + digit_val(ds[i - start]));
            assert(forall|k: int| 0 <= k < post.len() ==> is_digit(#[trigger] post[k])) by {
                assert(forall|k: int| 0 <= k < post.len() ==> post[k] == ds[k]);
            }
        }
        let next = match acc.checked_mul(10) {
            Some(a) => a.checked_sub(d as isize),
            None => None,
        };
        match next {
            Some(a) => {
                acc = a;
            },
            None => {
                proof {
                    // The value read so far is already beyond the magnitude
                    // any `isize` can carry; more digits cannot shrink it.
                    assert(digits_val(post) > -(isize::MIN as int));
                    if all_digits(ds) {
                        lemma_digits_val_monotone(ds, i + 1 - start, ds.len() as int);
                        assert(ds.take(ds.len() as int) =~= ds);
                        assert(digits_val(ds) > -(isize::MIN as int));
                        lemma_digits_val_nonneg(ds);
                        assert(s@.skip(1) =~= ds || s@ =~= ds);
                    }
                }
                return None;
            },
        }
        i += 1;
    }
    proof {
        assert(ds.take(len - start) =~= ds);
        assert(ds.len() > 0);
        assert(acc as int == -digits_val(ds));
        if start == 1 {
            assert(s@.skip(1) =~= ds);
        } else {
            assert(s@ =~= ds);
        }
    }
    if neg {
        Some(acc)
    } else {
        if acc == isize::MIN {
            // The magnitude is one past `isize::MAX`.
            return None;
        }
        Some(-acc)
    }
}

/// The decimal digit string of a value of at least zero, most significant
/// digit first, no sign and no padding.
pub open spec fn nat_to_text(v: int) -> Seq<char>
    recommends
        v >= 0,
    decreases v,
{
    if v <= 9 {
        seq![digit_char(v)]
    } else {
        nat_to_text(v / 10).push(digit_char(v % 10))
    }
}

/// The decimal text of an integer: a `-` sign for negative values, then the
/// digits of the magnitude.
pub open spec fn int_to_text(v: int) -> Seq<char> {
    if v < 0 {
        seq!['-'] + nat_to_text(-v)
    } else {
        nat_to_text(v)
    }
}

/// The digit string of a value of at least zero is made of digits and reads
/// back as that value.
pub proof fn lemma_nat_to_text_val(v: int)
    requires
        v >= 0,
    ensures
        nat_to_text(v).len() >= 1,
        all_digits(nat_to_text(v)),
        digits_val(nat_to_text(v)) == v,
    decreases v,
{
    if v <= 9 {
        let s = seq![digit_char(v)];
        assert(s.take(0) =~= Seq::<char>::empty());
        assert(digits_val(Seq::<char>::empty()) == 0);
        assert(digits_val(s) == digit_val(digit_char(v)));
    } else {
        lemma_nat_to_text_val(v / 10);
        let a = nat_to_text(v / 10);
        let s = a.push(digit_char(v % 10));
        assert(s.take(s.len() - 1) =~= a);
        assert(digits_val(s) == 10 * digits_val(a) + digit_val(s[s.len() - 1]));
        assert(10 * (v / 10) + v % 10 == v) by {
            vstd::arithmetic::div_mod::lemma_fundamental_div_mod(v, 10);
        }
    }
}

/// Formatting an integer and parsing the text back yields the integer; the
/// text needs no trimming and is never empty.
pub proof fn lemma_int_text_round_trip(v: int)
    ensures
        parse_int_spec(int_to_text(v)) == Some(v),
        trim_spec(int_to_text(v)) == int_to_text(v),
        int_to_text(v).len() >= 1,
{
    let s = int_to_text(v);
    if v < 0 {
        lemma_nat_to_text_val(-v);
        assert(s[0] == '-');
        assert(s.skip(1) =~= nat_to_text(-v));
        assert(parse_int_spec(s) == Some(v));
        assert(is_digit(s[s.len() - 1]));
    } else {
        lemma_nat_to_text_val(v);
        assert(is_digit(s[0]) && is_digit(s[s.len() - 1]));
    }
    assert(!is_space(s[0]) && !is_space(s[s.len() - 1]));
    assert(trim_spec(s) == s);
}

/// The one-character string of a decimal digit.
fn digit_str(d: usize) -> (r: &'static str)
    requires
        d <= 9,
    ensures
        r@ =~= seq![digit_char(d as int)],
{
    if d == 0 {
        proof {
            reveal_strlit("0");
        }
        "0"
    } else if d == 1 {
        proof {
            reveal_strlit("1");
        }
        "1"
    } else if d == 2 {
        proof {
            reveal_strlit("2");
        }
        "2"
    } else if d == 3 {
        proof {
            reveal_strlit("3");
        }
        "3"
    } else if d == 4 {
        proof {
            reveal_strlit("4");
        }
        "4"
    } else if d == 5 {
        proof {
            reveal_strlit("5");
        }
        "5"
    } else if d == 6 {
        proof {
            reveal_strlit("6");
        }
        "6"
    } else if d == 7 {
        proof {
            reveal_strlit("7");
        }
        "7"
    } else if d == 8 {
        proof {
            reveal_strlit("8");
        }
        "8"
    } else {
        proof {
            reveal_strlit("9");
        }
        "9"
    }
}

/// Appends the decimal digits of a value of at least zero.
fn push_decimal(v: usize, out: &mut String)
    ensures
        final(out)@ == old(out)@ + nat_to_text(v as int),
    decreases v,
{
    if v <= 9 {
        out.append(digit_str(v));
        assert(final(out)@ =~= old(out)@ + nat_to_text(v as int));
    } else {
        push_decimal(v / 10, out);
        out.append(digit_str(v % 10));
        assert(final(out)@ =~= old(out)@ + nat_to_text(v as int));
    }
}

/// The decimal text of an integer, as [`int_to_text`] describes it.
pub fn int_to_string(v: isize) -> (r: String)
    ensures
        r@ == int_to_text(v as int),
{
    let mag: usize = if v < 0 {
        (-(v + 1)) as usize + 1
    } else {
        v as usize
    };
    assert(v < 0 ==> mag == -(v as int));
    let mut r = String::new();
    if v < 0 {
        r.append("-");
        proof {
            reveal_strlit("-");
            assert(r@ =~= seq!['-']);
        }
    }
    push_decimal(mag, &mut r);
    assert(v < 0 ==> r@ =~= seq!['-'] + nat_to_text(mag as int));
    r
}

/// The pieces of `s` between single space characters, in order. Splitting
/// keeps empty pieces: empty text yields one empty piece, and each further
/// space adds a piece, so runs of spaces and outer spaces yield empty pieces.
pub open spec fn split_tokens(s: Seq<char>) -> Seq<Seq<char>>
    decreases s.len(),
{
    if s.len() == 0 {
        seq![Seq::<char>::empty()]
    } else if s[0] == ' ' {
        seq![Seq::<char>::empty()] + split_tokens(s.skip(1))
    } else {
        let r = split_tokens(s.skip(1));
        seq![seq![s[0]] + r[0]] + r.skip(1)
    }
}

/// A split yields at least one piece.
pub proof fn lemma_split_nonempty(s: Seq<char>)
    ensures
        split_tokens(s).len() >= 1,
    decreases s.len(),
{
    if s.len() > 0 {
        lemma_split_nonempty(s.skip(1));
    }
}

/// The pieces of `s` between single space characters, in order, kept as
/// [`split_tokens`] lays them out.
pub fn split_spaces(s: &str) -> (r: Vec<String>)
    ensures
        r.deep_view() == split_tokens(s@),
{
    let len = s.unicode_len();
    let mut r: Vec<String> = Vec::new();
    let mut start: usize = 0;
    let mut i: usize = 0;
    proof {
        lemma_split_nonempty(s@);
        assert(s@.subrange(0, 0) =~= Seq::<char>::empty());
        assert(split_tokens(s@) =~~= r.deep_view() + seq![
            s@.subrange(0, 0) + split_tokens(s@.skip(0))[0],
        ] + split_tokens(s@.skip(0)).skip(1)) by {
            assert(s@.skip(0) =~= s@);
        }
    }
    while i < len
        invariant
            start <= i <= len,
            len == s@.len(),
            split_tokens(s@) =~~= r.deep_view() + seq![
                s@.subrange(start as int, i as int) + split_tokens(s@.skip(i as int))[0],
            ] + split_tokens(s@.skip(i as int)).skip(1),
        decreases len - i,
    {
        let ghost sk = split_tokens(s@.skip(i as int));
        let ghost sk1 = split_tokens(s@.skip(i + 1));
        proof {
            assert(s@.skip(i as int)[0] == s@[i as int]);
            assert(s@.skip(i as int).skip(1) =~= s@.skip(i + 1));
            lemma_split_nonempty(s@.skip(i as int));
            lemma_split_nonempty(s@.skip(i + 1));
        }
        if s.get_char(i) == ' ' {
            let token = String::from_str(s.substring_char(start, i));
            let ghost old_r = r.deep_view();
            r.push(token);
            proof {
                assert(r.deep_view() =~~= old_r.push(token@));
                // A space closes the current piece and opens an empty one.
                assert(sk =~~= seq![Seq::<char>::empty()] + sk1);
                assert(sk[0] =~= Seq::<char>::empty());
                assert(sk.skip(1) =~~= sk1);
                assert(s@.subrange(start as int, i as int) + sk[0] =~= s@.subrange(
                    start as int,
                    i as int,
                ));
                assert(sk1 =~~= seq![sk1[0]] + sk1.skip(1));
                assert(s@.subrange(i + 1, i + 1) =~= Seq::<char>::empty());
                assert(split_tokens(s@) =~~= r.deep_view() + seq![
                    s@.subrange(i + 1, i + 1) + sk1[0],
                ] + sk1.skip(1));
            }
            start = i + 1;
        } else {
            proof {
                // The current character extends the current piece.
                assert(sk =~~= seq![seq![s@[i as int]] + sk1[0]] + sk1.skip(1));
                assert(sk[0] =~= seq![s@[i as int]] + sk1[0]);
                assert(sk.skip(1) =~~= sk1.skip(1));
                assert(s@.subrange(start as int, i as int) + sk[0] =~= s@.subrange(
                    start as int,
                    i + 1,
                ) + sk1[0]);
                assert(split_tokens(s@) =~~= r.deep_view() + seq![
                    s@.subrange(start as int, i + 1) + sk1[0],
                ] + sk1.skip(1));
            }
        }
        i += 1;
    }
    let token = String::from_str(s.substring_char(start, len));
    let ghost old_r = r.deep_view();
    r.push(token);
    proof {
        assert(r.deep_view() =~~= old_r.push(token@));
        assert(s@.skip(len as int) =~= Seq::<char>::empty());
        assert(split_tokens(Seq::<char>::empty()) =~~= seq![Seq::<char>::empty()]);
        assert(split_tokens(s@) =~~= r.deep_view());
    }
    r
}

/// Whether the characters of `s` begin with the characters of `p`.
pub fn str_starts_with(s: &str, p: &str) -> (r: bool)
    ensures
        r == starts_with(s@, p@),
{
    let slen = s.unicode_len();
    let plen = p.unicode_len();
    if plen > slen {
        return false;
    }
    let mut i: usize = 0;
    while i < plen
        invariant
            slen == s@.len() && plen == p@.len(),
            plen <= slen,
            i <= plen,
            forall|k: int| 0 <= k < i ==> s@[k] == p@[k],
        decreases plen - i,
    {
        if s.get_char(i) != p.get_char(i) {
            return false;
        }
        i += 1;
    }
    true
}

} // verus!
