//! Decimal text for positions and indices, and small string utilities.
//!
//! Context addresses travel over the wire as delimited strings, so the
//! library formats and parses decimal numbers itself, with proofs that
//! the two directions agree.

use vstd::prelude::*;

verus! {

/// Whether a character is a decimal digit.
pub open spec fn is_digit(c: char) -> bool {
    48 <= c as u32 <= 57
}

/// Numeric value of a decimal digit character.
pub open spec fn digit_val(c: char) -> nat
    recommends
        is_digit(c),
{
    ((c as u32) - 48) as nat
}

/// The character for a digit value below ten.
pub open spec fn digit_char(d: nat) -> char
    recommends
        d < 10,
{
    if d == 0 {
        '0'
    } else if d == 1 {
        '1'
    } else if d == 2 {
        '2'
    } else if d == 3 {
        '3'
    } else if d == 4 {
        '4'
    } else if d == 5 {
        '5'
    } else if d == 6 {
        '6'
    } else if d == 7 {
        '7'
    } else if d == 8 {
        '8'
    } else {
        '9'
    }
}

/// Decimal representation of a natural number, most significant digit first.
pub open spec fn dec_rep(n: nat) -> Seq<char>
    decreases n,
{
    if n < 10 {
        seq![digit_char(n)]
    } else {
        dec_rep(n / 10).push(digit_char(n % 10))
    }
}

/// Whether every character of a sequence is a decimal digit.
pub open spec fn all_digits(s: Seq<char>) -> bool {
    forall|i: int| 0 <= i < s.len() ==> is_digit(#[trigger] s[i])
}

/// Value of a digit sequence read as a decimal number.
pub open spec fn digits_val(s: Seq<char>) -> nat
    decreases s.len(),
{
    if s.len() == 0 {
        0
    } else {
        digits_val(s.drop_last()) * 10 + digit_val(s.last())
    }
}

/// What parsing a sequence as a decimal natural number yields: the value,
/// or nothing when the sequence is empty or holds a non-digit.
pub open spec fn parse_nat(s: Seq<char>) -> Option<nat> {
    if s.len() > 0 && all_digits(s) {
        Some(digits_val(s))
    } else {
        None
    }
}

/// A digit character's value is the digit it was chosen for.
pub proof fn lemma_digit_char_val(d: nat)
    requires
        d < 10,
    ensures
        is_digit(digit_char(d)),
        digit_val(digit_char(d)) == d,
{
}

/// The decimal representation of a number is a non-empty digit string
/// whose value is that number.
pub proof fn lemma_dec_rep_val(n: nat)
    ensures
        dec_rep(n).len() >= 1,
        all_digits(dec_rep(n)),
        digits_val(dec_rep(n)) == n,
    decreases n,
{
    if n < 10 {
        lemma_digit_char_val(n);
        let s = seq![digit_char(n)];
        assert(dec_rep(n) =~= s);
        assert(s.last() == digit_char(n));
        assert(s.drop_last() =~= Seq::<char>::empty());
        assert(digits_val(s.drop_last()) == 0);
        assert(digits_val(s) == digit_val(digit_char(n)));
    } else {
        lemma_dec_rep_val(n / 10);
        lemma_digit_char_val(n % 10);
        let prefix = dec_rep(n / 10);
        let whole = prefix.push(digit_char(n % 10));
        assert(whole.drop_last() =~= prefix);
        assert(whole.last() == digit_char(n % 10));
        assert(digits_val(whole) == (n / 10) * 10 + n % 10);
        assert((n / 10) * 10 + n % 10 == n) by (nonlinear_arith);
        assert forall|i: int| 0 <= i < whole.len() implies is_digit(#[trigger] whole[i]) by {
            if i < prefix.len() {
                assert(whole[i] == prefix[i]);
            }
        }
    }
}

/// Parsing the decimal representation of a number gives the number back.
pub proof fn lemma_parse_dec_rep(n: nat)
    ensures
        parse_nat(dec_rep(n)) == Some(n),
{
    lemma_dec_rep_val(n);
}

/// A digit is never a separator such as `'.'`.
pub proof fn lemma_digit_not_dot(c: char)
    requires
        is_digit(c),
    ensures
        c != '.',
{
}

/// Reading one more digit multiplies the value so far by ten and adds it.
pub proof fn lemma_digits_val_step(s: Seq<char>, i: int)
    requires
        0 <= i < s.len(),
    ensures
        digits_val(s.take(i + 1)) == digits_val(s.take(i)) * 10 + digit_val(s[i]),
{
    assert(s.take(i + 1).drop_last() =~= s.take(i));
    assert(s.take(i + 1).last() == s[i]);
}

/// The value of a digit prefix never shrinks as the prefix grows.
pub proof fn lemma_digits_val_monotone(s: Seq<char>, i: int, j: int)
    requires
        0 <= i <= j <= s.len(),
    ensures
        digits_val(s.take(j)) >= digits_val(s.take(i)),
    decreases j - i,
{
    if i < j {
        lemma_digits_val_monotone(s, i, j - 1);
        lemma_digits_val_step(s, j - 1);
        let v = digits_val(s.take(j - 1));
        assert(v * 10 >= v) by (nonlinear_arith);
    }
}

/// The string for one digit.
fn digit_str(d: u32) -> (r: &'static str)
    requires
        d < 10,
    ensures
        r@ =~= seq![digit_char(d as nat)],
{
    let r: &'static str = if d == 0 {
        "0"
    } else if d == 1 {
        "1"
    } else if d == 2 {
        "2"
    } else if d == 3 {
        "3"
    } else if d == 4 {
        "4"
    } else if d == 5 {
        "5"
    } else if d == 6 {
        "6"
    } else if d == 7 {
        "7"
    } else if d == 8 {
        "8"
    } else {
        "9"
    };
    proof {
        reveal_strlit("0");
        reveal_strlit("1");
        reveal_strlit("2");
        reveal_strlit("3");
        reveal_strlit("4");
        reveal_strlit("5");
        reveal_strlit("6");
        reveal_strlit("7");
        reveal_strlit("8");
        reveal_strlit("9");
    }
    r
}

/// Format a number in decimal.
pub fn fmt_u32(n: u32) -> (s: String)
    ensures
        s@ == dec_rep(n as nat),
    decreases n,
{
    if n < 10 {
        let s = digit_str(n).to_owned();
        proof {
            assert(dec_rep(n as nat) =~= seq![digit_char(n as nat)]);
        }
        s
    } else {
        let mut s = fmt_u32(n / 10);
        s.append(digit_str(n % 10));
        proof {
            assert(dec_rep((n / 10) as nat).push(digit_char((n % 10) as nat)) =~= dec_rep(
                (n / 10) as nat,
            ) + seq![digit_char((n % 10) as nat)]);
            assert(dec_rep(n as nat) == dec_rep((n / 10) as nat).push(
                digit_char((n % 10) as nat),
            ));
        }
        s
    }
}

/// Format an eight-bit number in decimal.
pub fn fmt_u8(n: u8) -> (s: String)
    ensures
        s@ == dec_rep(n as nat),
{
    fmt_u32(n as u32)
}

/// Format a sixteen-bit number in decimal.
pub fn fmt_u16(n: u16) -> (s: String)
    ensures
        s@ == dec_rep(n as nat),
{
    fmt_u32(n as u32)
}

/// Parse a decimal number, rejecting values that do not fit in 32 bits.
pub fn parse_dec_u32(s: &str) -> (r: Option<u32>)
    ensures
        match parse_nat(s@) {
            Some(m) => if m <= u32::MAX as nat {
                r == Some(m as u32)
            } else {
                r is None
            },
            None => r is None,
        },
{
    let len = s.unicode_len();
    if len == 0 {
        return None;
    }
    let mut acc: u64 = 0;
    let mut i: usize = 0;
    while i < len
        invariant
            0 <= i <= len,
            len == s@.len(),
            all_digits(s@.take(i as int)),
            acc == digits_val(s@.take(i as int)),
            acc <= u32::MAX,
        decreases len - i,
    {
        let c = s.get_char(i);
        let cv = c as u32;
        if cv < 48 || cv > 57 {
            proof {
                assert(!is_digit(s@[i as int]));
                assert(!all_digits(s@));
            }
            return None;
        }
        proof {
            lemma_digits_val_step(s@, i as int);
            assert(s@.take(i as int + 1)[i as int] == s@[i as int]);
            assert(all_digits(s@.take(i as int + 1))) by {
                assert(forall|k: int|
                    0 <= k < i ==> #[trigger] s@.take(i as int + 1)[k] == s@.take(i as int)[k]);
            }
        }
        let next = acc * 10 + ((cv - 48) as u64);
        if next > u32::MAX as u64 {
            proof {
                lemma_digits_val_monotone(s@, i as int + 1, s@.len() as int);
                assert(s@.take(s@.len() as int) =~= s@);
            }
            return None;
        }
        acc = next;
        i = i + 1;
    }
    proof {
        assert(s@.take(len as int) =~= s@);
    }
    Some(acc as u32)
}

/// Parse a decimal number that must fit in eight bits.
pub fn parse_dec_u8(s: &str) -> (r: Option<u8>)
    ensures
        match parse_nat(s@) {
            Some(m) => if m <= u8::MAX as nat {
                r == Some(m as u8)
            } else {
                r is None
            },
            None => r is None,
        },
{
    match parse_dec_u32(s) {
        Some(v) => if v <= u8::MAX as u32 {
            Some(v as u8)
        } else {
            None
        },
        None => None,
    }
}

/// Parse a decimal number that must fit in sixteen bits.
pub fn parse_dec_u16(s: &str) -> (r: Option<u16>)
    ensures
        match parse_nat(s@) {
            Some(m) => if m <= u16::MAX as nat {
                r == Some(m as u16)
            } else {
                r is None
            },
            None => r is None,
        },
{
    match parse_dec_u32(s) {
        Some(v) => if v <= u16::MAX as u32 {
            Some(v as u16)
        } else {
            None
        },
        None => None,
    }
}

/// The first occurrence of a character at or after a starting point.
pub open spec fn spec_find(s: Seq<char>, c: char, from: int) -> Option<int>
    decreases s.len() - from,
{
    if from < 0 || from >= s.len() {
        None
    } else if s[from] == c {
        Some(from)
    } else {
        spec_find(s, c, from + 1)
    }
}

/// What a successful or failed search says about the sequence.
pub proof fn lemma_spec_find(s: Seq<char>, c: char, from: int)
    requires
        0 <= from <= s.len(),
    ensures
        match spec_find(s, c, from) {
            Some(i) => from <= i < s.len() && s[i] == c && forall|j: int|
                from <= j < i ==> s[j] != c,
            None => forall|j: int| from <= j < s.len() ==> s[j] != c,
        },
    decreases s.len() - from,
{
    if from < s.len() && s[from] != c {
        lemma_spec_find(s, c, from + 1);
    }
}

/// A search over a stretch free of the character finds nothing.
pub proof fn lemma_spec_find_none(s: Seq<char>, c: char, from: int)
    requires
        0 <= from <= s.len(),
        forall|j: int| from <= j < s.len() ==> s[j] != c,
    ensures
        spec_find(s, c, from) is None,
    decreases s.len() - from,
{
    if from < s.len() {
        lemma_spec_find_none(s, c, from + 1);
    }
}

/// A position holding the character, with none before it, is where the
/// search lands.
pub proof fn lemma_spec_find_unique(s: Seq<char>, c: char, from: int, i: int)
    requires
        0 <= from <= i < s.len(),
        s[i] == c,
        forall|j: int| from <= j < i ==> s[j] != c,
    ensures
        spec_find(s, c, from) == Some(i),
    decreases i - from,
{
    if from < i {
        lemma_spec_find_unique(s, c, from + 1, i);
    }
}

/// Find the first occurrence of a character at or after a starting point.
pub fn find_char_from(s: &str, c: char, from: usize) -> (r: Option<usize>)
    requires
        from <= s@.len(),
    ensures
        match r {
            Some(i) => Some(i as int) == spec_find(s@, c, from as int),
            None => spec_find(s@, c, from as int) is None,
        },
{
    let len = s.unicode_len();
    let mut i: usize = from;
    while i < len
        invariant
            from <= i <= len,
            len == s@.len(),
            spec_find(s@, c, from as int) == spec_find(s@, c, i as int),
        decreases len - i,
    {
        let ch = s.get_char(i);
        if ch == c {
            return Some(i);
        }
        i = i + 1;
    }
    None
}

/// Whether two strings hold the same characters.
pub fn str_eq(a: &str, b: &str) -> (r: bool)
    ensures
        r == (a@ == b@),
{
    let la = a.unicode_len();
    let lb = b.unicode_len();
    if la != lb {
        return false;
    }
    let mut i: usize = 0;
    while i < la
        invariant
            0 <= i <= la,
            la == a@.len(),
            la == b@.len(),
            forall|j: int| 0 <= j < i ==> a@[j] == b@[j],
        decreases la - i,
    {
        if a.get_char(i) != b.get_char(i) {
            return false;
        }
        i = i + 1;
    }
    proof {
        assert(a@ =~= b@);
    }
    true
}

/// Whether a string starts with the given prefix.
pub fn starts_with_str(s: &str, prefix: &str) -> (r: bool)
    ensures
        r == prefix@.is_prefix_of(s@),
{
    let ls = s.unicode_len();
    let lp = prefix.unicode_len();
    if lp > ls {
        proof {
            assert(!prefix@.is_prefix_of(s@));
        }
        return false;
    }
    let mut i: usize = 0;
    while i < lp
        invariant
            0 <= i <= lp,
            lp <= ls,
            ls == s@.len(),
            lp == prefix@.len(),
            forall|j: int| 0 <= j < i ==> s@[j] == prefix@[j],
        decreases lp - i,
    {
        if s.get_char(i) != prefix.get_char(i) {
            proof {
                assert(!(prefix@ =~= s@.subrange(0, lp as int)));
            }
            return false;
        }
        i = i + 1;
    }
    proof {
        assert(prefix@ =~= s@.subrange(0, lp as int));
    }
    true
}

/// Whether a string ends with the given suffix.
pub fn ends_with_str(s: &str, suffix: &str) -> (r: bool)
    ensures
        r == suffix@.is_suffix_of(s@),
{
    let ls = s.unicode_len();
    let lx = suffix.unicode_len();
    if lx > ls {
        proof {
            assert(!suffix@.is_suffix_of(s@));
        }
        return false;
    }
    let start = ls - lx;
    let mut i: usize = 0;
    while i < lx
        invariant
            0 <= i <= lx,
            lx <= ls,
            start == ls - lx,
            ls == s@.len(),
            lx == suffix@.len(),
            forall|j: int| 0 <= j < i ==> s@[start + j] == suffix@[j],
        decreases lx - i,
    {
        if s.get_char(start + i) != suffix.get_char(i) {
            proof {
                assert(!(suffix@ =~= s@.subrange(start as int, ls as int)));
            }
            return false;
        }
        i = i + 1;
    }
    proof {
        assert(suffix@ =~= s@.subrange(start as int, ls as int));
    }
    true
}

/// A character folded to lower case, as a code point; characters outside
/// the ASCII letters stay as they are.
pub open spec fn lower_code(c: char) -> u32 {
    if 65 <= c as u32 <= 90 {
        (c as u32 + 32) as u32
    } else {
        c as u32
    }
}

/// The sequence of case-folded code points of a string.
pub open spec fn lower_codes(s: Seq<char>) -> Seq<u32> {
    s.map(|_i: int, c: char| lower_code(c))
}

/// Whether two strings are equal up to ASCII case.
pub fn eq_ignore_ascii_case(a: &str, b: &str) -> (r: bool)
    ensures
        r == (lower_codes(a@) == lower_codes(b@)),
{
    let la = a.unicode_len();
    let lb = b.unicode_len();
    if la != lb {
        proof {
            assert(lower_codes(a@).len() == a@.len());
            assert(lower_codes(b@).len() == b@.len());
        }
        return false;
    }
    let mut i: usize = 0;
    while i < la
        invariant
            0 <= i <= la,
            la == a@.len(),
            la == b@.len(),
            forall|j: int| 0 <= j < i ==> lower_code(a@[j]) == lower_code(b@[j]),
        decreases la - i,
    {
        let ca = a.get_char(i) as u32;
        let cb = b.get_char(i) as u32;
        let fa = if 65 <= ca && ca <= 90 {
            ca + 32
        } else {
            ca
        };
        let fb = if 65 <= cb && cb <= 90 {
            cb + 32
        } else {
            cb
        };
        if fa != fb {
            proof {
                assert(lower_codes(a@)[i as int] != lower_codes(b@)[i as int]);
            }
            return false;
        }
        i = i + 1;
    }
    proof {
        assert(lower_codes(a@) =~= lower_codes(b@));
    }
    true
}

/// Whether a string ends with the given suffix, up to ASCII case.
pub fn ends_with_ignore_ascii_case(s: &str, suffix: &str) -> (r: bool)
    ensures
        r == (s@.len() >= suffix@.len() && lower_codes(s@).skip(
            s@.len() - suffix@.len(),
        ) == lower_codes(suffix@)),
{
    let ls = s.unicode_len();
    let lx = suffix.unicode_len();
    if lx > ls {
        return false;
    }
    let start = ls - lx;
    let mut i: usize = 0;
    while i < lx
        invariant
            0 <= i <= lx,
            lx <= ls,
            start == ls - lx,
            ls == s@.len(),
            lx == suffix@.len(),
            forall|j: int| 0 <= j < i ==> lower_code(s@[start + j]) == lower_code(suffix@[j]),
        decreases lx - i,
    {
        let ca = s.get_char(start + i) as u32;
        let cb = suffix.get_char(i) as u32;
        let fa = if 65 <= ca && ca <= 90 {
            ca + 32
        } else {
            ca
        };
        let fb = if 65 <= cb && cb <= 90 {
            cb + 32
        } else {
            cb
        };
        if fa != fb {
            proof {
                assert(lower_codes(s@).skip(start as int)[i as int] != lower_codes(
                    suffix@,
                )[i as int]);
            }
            return false;
        }
        i = i + 1;
    }
    proof {
        assert(lower_codes(s@).skip(start as int) =~= lower_codes(suffix@));
    }
    true
}

/// Whether a sequence of strings holds one equal to the given string.
pub fn vec_contains_str(v: &Vec<String>, x: &str) -> (r: bool)
    ensures
        r == v.deep_view().contains(x@),
{
    let mut i: usize = 0;
    while i < v.len()
        invariant
            0 <= i <= v@.len(),
            forall|j: int| 0 <= j < i ==> v.deep_view()[j] != x@,
        decreases v@.len() - i,
    {
        if str_eq(v[i].as_str(), x) {
            proof {
                assert(v.deep_view()[i as int] == x@);
            }
            return true;
        }
        i = i + 1;
    }
    proof {
        assert(forall|j: int| 0 <= j < v.deep_view().len() ==> v.deep_view()[j] != x@);
    }
    false
}


/// Whether a character is ASCII whitespace.
pub open spec fn is_space(c: char) -> bool {
    c == ' ' || c == '\t' || c == '\n' || c == '\r'
}

/// A sequence with leading whitespace dropped.
pub open spec fn trim_front(s: Seq<char>) -> Seq<char>
    decreases s.len(),
{
    if s.len() > 0 && is_space(s[0]) {
        trim_front(s.drop_first())
    } else {
        s
    }
}

/// A sequence with trailing whitespace dropped.
pub open spec fn trim_back(s: Seq<char>) -> Seq<char>
    decreases s.len(),
{
    if s.len() > 0 && is_space(s.last()) {
        trim_back(s.drop_last())
    } else {
        s
    }
}

/// A sequence with whitespace dropped at both ends.
pub open spec fn spec_trim(s: Seq<char>) -> Seq<char> {
    trim_back(trim_front(s))
}

/// Dropping leading whitespace keeps the suffix after the first non-space.
proof fn lemma_trim_front_at(s: Seq<char>, a: int)
    requires
        0 <= a <= s.len(),
        forall|j: int| 0 <= j < a ==> is_space(#[trigger] s[j]),
        a < s.len() ==> !is_space(s[a]),
    ensures
        trim_front(s) == s.subrange(a, s.len() as int),
    decreases a,
{
    if a == 0 {
        if s.len() > 0 && is_space(s[0]) {
            assert(false);
        }
        assert(s.subrange(0, s.len() as int) =~= s);
    } else {
        let t = s.drop_first();
        assert(is_space(s[0]));
        assert(forall|j: int| 0 <= j < a - 1 ==> is_space(#[trigger] t[j]));
        lemma_trim_front_at(t, a - 1);
        assert(t.subrange(a - 1, t.len() as int) =~= s.subrange(a, s.len() as int));
    }
}

/// Dropping trailing whitespace keeps the prefix up to the last non-space.
proof fn lemma_trim_back_at(s: Seq<char>, b: int)
    requires
        0 <= b <= s.len(),
        forall|j: int| b <= j < s.len() ==> is_space(#[trigger] s[j]),
        b > 0 ==> !is_space(s[b - 1]),
    ensures
        trim_back(s) == s.subrange(0, b),
    decreases s.len() - b,
{
    if b == s.len() {
        if s.len() > 0 && is_space(s.last()) {
            assert(false);
        }
        assert(s.subrange(0, s.len() as int) =~= s);
    } else {
        let t = s.drop_last();
        assert(is_space(s.last()));
        lemma_trim_back_at(t, b);
        assert(t.subrange(0, b) =~= s.subrange(0, b));
    }
}

/// Strip ASCII whitespace from both ends of a string.
pub fn trim_ascii<'a>(s: &'a str) -> (r: &'a str)
    ensures
        r@ == spec_trim(s@),
{
    let len = s.unicode_len();
    let mut a: usize = 0;
    while a < len
        invariant
            0 <= a <= len,
            len == s@.len(),
            forall|j: int| 0 <= j < a ==> is_space(#[trigger] s@[j]),
        ensures
            0 <= a <= len,
            forall|j: int| 0 <= j < a ==> is_space(#[trigger] s@[j]),
            a < len ==> !is_space(s@[a as int]),
        decreases len - a,
    {
        let c = s.get_char(a);
        if !(c == ' ' || c == '\t' || c == '\n' || c == '\r') {
            break ;
        }
        a = a + 1;
    }
    proof {
        lemma_trim_front_at(s@, a as int);
    }
    let mut b: usize = len;
    while b > a
        invariant
            a <= b <= len,
            len == s@.len(),
            forall|j: int| b <= j < len ==> is_space(#[trigger] s@[j]),
        ensures
            a <= b <= len,
            forall|j: int| b <= j < len ==> is_space(#[trigger] s@[j]),
            b > a ==> !is_space(s@[b as int - 1]),
        decreases b,
    {
        let c = s.get_char(b - 1);
        if !(c == ' ' || c == '\t' || c == '\n' || c == '\r') {
            break ;
        }
        b = b - 1;
    }
    proof {
        let f = s@.subrange(a as int, len as int);
        assert forall|j: int| b - a <= j < f.len() implies is_space(#[trigger] f[j]) by {
            assert(f[j] == s@[a + j]);
        }
        if b > a {
            assert(f[b - a - 1] == s@[b as int - 1]);
        }
        lemma_trim_back_at(f, b as int - a as int);
        assert(f.subrange(0, b - a) =~= s@.subrange(a as int, b as int));
    }
    s.substring_char(a, b)
}

/// Whether a string equals a key after trimming and ASCII case folding.
pub fn matches_key(s: &str, key: &str) -> (r: bool)
    ensures
        r == (lower_codes(spec_trim(s@)) == lower_codes(key@)),
{
    let t = trim_ascii(s);
    eq_ignore_ascii_case(t, key)
}


/// The first occurrence of a substring at or after a starting point; an
/// empty needle is found immediately.
pub open spec fn spec_find_sub(s: Seq<char>, m: Seq<char>, from: int) -> Option<int>
    decreases s.len() - from,
{
    if from < 0 || from + m.len() > s.len() {
        None
    } else if m.len() == 0 {
        Some(from)
    } else if s.subrange(from, from + m.len() as int) == m {
        Some(from)
    } else {
        spec_find_sub(s, m, from + 1)
    }
}

/// Find the first occurrence of a substring.
pub fn find_sub(s: &str, m: &str, from: usize) -> (r: Option<usize>)
    requires
        from <= s@.len(),
    ensures
        match r {
            Some(i) => Some(i as int) == spec_find_sub(s@, m@, from as int),
            None => spec_find_sub(s@, m@, from as int) is None,
        },
{
    let len = s.unicode_len();
    let mlen = m.unicode_len();
    if mlen > len || from > len - mlen {
        return None;
    }
    if mlen == 0 {
        return Some(from);
    }
    let last = len - mlen;
    let mut i: usize = from;
    while i <= last
        invariant
            from <= i <= last + 1,
            last == len - mlen,
            mlen >= 1,
            mlen <= len,
            len == s@.len(),
            mlen == m@.len(),
            spec_find_sub(s@, m@, from as int) == spec_find_sub(s@, m@, i as int),
        decreases last + 1 - i,
    {
        let window = s.substring_char(i, i + mlen);
        if str_eq(window, m) {
            return Some(i);
        }
        i = i + 1;
    }
    proof {
        assert(spec_find_sub(s@, m@, i as int) is None);
    }
    None
}

/// A string with every occurrence of one text exchanged for another,
/// scanning left to right without revisiting replacements.
pub open spec fn spec_replace_all(s: Seq<char>, from: Seq<char>, to: Seq<char>) -> Seq<char>
    decreases s.len(),
{
    if from.len() == 0 || s.len() < from.len() {
        s
    } else if from.is_prefix_of(s) {
        to + spec_replace_all(s.skip(from.len() as int), from, to)
    } else {
        seq![s[0]] + spec_replace_all(s.skip(1), from, to)
    }
}

/// Exchange every occurrence of one text for another.
pub fn replace_all(s: &str, from: &str, to: &str) -> (r: String)
    ensures
        r@ == spec_replace_all(s@, from@, to@),
{
    let len = s.unicode_len();
    let flen = from.unicode_len();
    if flen == 0 {
        return s.to_owned();
    }
    let mut out = String::new();
    proof {
        assert(s@.skip(0) =~= s@);
        assert(out@ + spec_replace_all(s@, from@, to@) =~= spec_replace_all(s@, from@, to@));
    }
    let mut i: usize = 0;
    while i < len
        invariant
            0 <= i <= len,
            len == s@.len(),
            flen == from@.len(),
            flen >= 1,
            spec_replace_all(s@, from@, to@) == out@ + spec_replace_all(
                s@.skip(i as int),
                from@,
                to@,
            ),
        decreases len - i,
    {
        let ghost rest = s@.skip(i as int);
        if flen <= len - i && str_eq(s.substring_char(i, i + flen), from) {
            proof {
                assert(s@.subrange(i as int, i as int + flen as int) =~= rest.subrange(
                    0,
                    flen as int,
                ));
                assert(from@.is_prefix_of(rest));
                assert(rest.skip(flen as int) =~= s@.skip(i as int + flen as int));
            }
            out.append(to);
            i = i + flen;
        } else {
            proof {
                if flen <= len - i {
                    assert(rest.subrange(0, flen as int) =~= s@.subrange(
                        i as int,
                        i as int + flen as int,
                    ));
                    assert(!from@.is_prefix_of(rest));
                } else {
                    assert(rest.len() < flen);
                }
                assert(s@.subrange(i as int, i as int + 1) =~= seq![s@[i as int]]);
                assert(rest.skip(1) =~= s@.skip(i as int + 1));
                assert(spec_replace_all(rest, from@, to@) == seq![rest[0]] + spec_replace_all(
                    rest.skip(1),
                    from@,
                    to@,
                ));
            }
            out.append(s.substring_char(i, i + 1));
            i = i + 1;
        }
    }
    proof {
        assert(s@.skip(len as int) =~= Seq::<char>::empty());
        assert(spec_replace_all(Seq::<char>::empty(), from@, to@) == Seq::<char>::empty());
        assert(out@ + Seq::<char>::empty() =~= out@);
    }
    out
}

} // verus!



