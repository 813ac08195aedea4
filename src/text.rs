//! Text of element payloads: decimal integers, booleans and trimming.
use vstd::prelude::*;

verus! {

pub open spec fn is_digit(c: char) -> bool {
    '0' <= c && c <= '9'
}

pub open spec fn digit_value(c: char) -> int {
    c as int - '0' as int
}

pub open spec fn all_digits(s: Seq<char>) -> bool {
    forall|i: int| 0 <= i < s.len() ==> #[trigger] is_digit(s[i])
}

/// The value of a run of decimal digits, most significant first.
pub open spec fn digits_value(s: Seq<char>) -> nat
    decreases s.len(),
{
    if s.len() == 0 {
        0
    } else {
        (digits_value(s.drop_last()) * 10 + digit_value(s.last())) as nat
    }
}

/// The integer written by `s`: an optional sign, then one or more digits.
pub open spec fn signed_text_value(s: Seq<char>) -> Option<int> {
    if s.len() > 0 && (s[0] == '+' || s[0] == '-') {
        let rest = s.drop_first();
        if rest.len() > 0 && all_digits(rest) {
            if s[0] == '-' {
                Some(-(digits_value(rest) as int))
            } else {
                Some(digits_value(rest) as int)
            }
        } else {
            None
        }
    } else if s.len() > 0 && all_digits(s) {
        Some(digits_value(s) as int)
    } else {
        None
    }
}

/// The non-negative integer written by `s`: an optional `+`, then one or more digits.
pub open spec fn unsigned_text_value(s: Seq<char>) -> Option<int> {
    if s.len() > 0 && s[0] == '-' {
        None
    } else {
        signed_text_value(s)
    }
}

/// What reading `s` as an `i64` gives: its value when it is written as a
/// signed integer within range.
pub open spec fn i64_of_text(s: Seq<char>) -> Option<i64> {
    match signed_text_value(s) {
        Some(v) => if i64::MIN <= v <= i64::MAX {
            Some(v as i64)
        } else {
            None
        },
        None => None,
    }
}

/// What reading `s` as an `i32` gives.
pub open spec fn i32_of_text(s: Seq<char>) -> Option<i32> {
    match signed_text_value(s) {
        Some(v) => if i32::MIN <= v <= i32::MAX {
            Some(v as i32)
        } else {
            None
        },
        None => None,
    }
}

/// What reading `s` as a `u64` gives.
pub open spec fn u64_of_text(s: Seq<char>) -> Option<u64> {
    match unsigned_text_value(s) {
        Some(v) => if 0 <= v <= u64::MAX {
            Some(v as u64)
        } else {
            None
        },
        None => None,
    }
}

/// What reading `s` as a `bool` gives: exactly `true` or `false`.
pub open spec fn bool_of_text(s: Seq<char>) -> Option<bool> {
    if s == seq!['t', 'r', 'u', 'e'] {
        Some(true)
    } else if s == seq!['f', 'a', 'l', 's', 'e'] {
        Some(false)
    } else {
        None
    }
}

pub open spec fn digit_char(d: nat) -> char
    recommends
        d < 10,
{
    ((d + '0' as nat) as u32) as char
}

/// The shortest decimal text of `n`.
pub open spec fn nat_text(n: nat) -> Seq<char>
    decreases n,
{
    if n < 10 {
        seq![digit_char(n)]
    } else {
        nat_text(n / 10).push(digit_char(n % 10))
    }
}

/// The decimal text of `v`, with a `-` before a negative value.
pub open spec fn int_text(v: int) -> Seq<char> {
    if v < 0 {
        seq!['-'] + nat_text((-v) as nat)
    } else {
        nat_text(v as nat)
    }
}

pub open spec fn bool_text(b: bool) -> Seq<char> {
    if b {
        seq!['t', 'r', 'u', 'e']
    } else {
        seq!['f', 'a', 'l', 's', 'e']
    }
}

proof fn lemma_digit_char(d: nat)
    requires
        d < 10,
    ensures
        is_digit(digit_char(d)),
        digit_value(digit_char(d)) == d,
{
    assert(('0' as nat) == 48);
}

proof fn lemma_nat_text(n: nat)
    ensures
        nat_text(n).len() > 0,
        all_digits(nat_text(n)),
        digits_value(nat_text(n)) == n,
    decreases n,
{
    if n < 10 {
        lemma_digit_char(n);
        let s = nat_text(n);
        assert(s.drop_last() =~= Seq::<char>::empty());
        assert(digits_value(s.drop_last()) == 0);
        assert(s.last() == digit_char(n));
    } else {
        lemma_nat_text(n / 10);
        lemma_digit_char(n % 10);
        let s = nat_text(n);
        assert(s.drop_last() =~= nat_text(n / 10));
        assert(s.last() == digit_char(n % 10));
        assert(digits_value(s) == digits_value(nat_text(n / 10)) * 10 + digit_value(digit_char(n % 10)));
        assert(n == (n / 10) * 10 + n % 10);
        assert forall|i: int| 0 <= i < s.len() implies #[trigger] is_digit(s[i]) by {
            if i < s.len() - 1 {
                assert(s[i] == nat_text(n / 10)[i]);
            }
        }
    }
}

/// Reading back the decimal text of a value gives that value.
pub proof fn lemma_int_text_reads_back(v: int)
    ensures
        signed_text_value(int_text(v)) == Some(v),
        v >= 0 ==> unsigned_text_value(int_text(v)) == Some(v),
        i64::MIN <= v <= i64::MAX ==> i64_of_text(int_text(v)) == Some(v as i64),
        i32::MIN <= v <= i32::MAX ==> i32_of_text(int_text(v)) == Some(v as i32),
        0 <= v <= u64::MAX ==> u64_of_text(int_text(v)) == Some(v as u64),
{
    if v < 0 {
        let m = (-v) as nat;
        lemma_nat_text(m);
        let s = int_text(v);
        assert(s.drop_first() =~= nat_text(m));
    } else {
        lemma_nat_text(v as nat);
        assert(is_digit(nat_text(v as nat)[0]));
    }
}

proof fn lemma_digits_prefix_le(t: Seq<char>, k: int)
    requires
        all_digits(t),
        0 <= k <= t.len(),
    ensures
        digits_value(t.subrange(0, k)) <= digits_value(t),
    decreases t.len(),
{
    if k < t.len() {
        let u = t.drop_last();
        assert(all_digits(u)) by {
            assert forall|i: int| 0 <= i < u.len() implies #[trigger] is_digit(u[i]) by {
                assert(u[i] == t[i]);
            }
        }
        lemma_digits_prefix_le(u, k);
        assert(u.subrange(0, k) =~= t.subrange(0, k));
        assert(is_digit(t.last()));
    } else {
        assert(t.subrange(0, k) =~= t);
    }
}

proof fn lemma_digits_step(t: Seq<char>, i: int)
    requires
        0 <= i < t.len(),
        is_digit(t[i]),
    ensures
        digits_value(t.subrange(0, i + 1)) == digits_value(t.subrange(0, i)) * 10 + digit_value(
            t[i],
        ),
{
    assert(t.subrange(0, i + 1).drop_last() =~= t.subrange(0, i));
    assert(t.subrange(0, i + 1).last() == t[i]);
}

/// Reads the digits of `s` from char `start` to the end as a `u64`.
fn digits_u64(s: &str, start: usize) -> (r: Option<u64>)
    requires
        start <= s@.len(),
    ensures
        ({
            let t = s@.subrange(start as int, s@.len() as int);
            &&& r is Some <==> (t.len() > 0 && all_digits(t) && digits_value(t) <= u64::MAX)
            &&& r matches Some(v) ==> v == digits_value(t)
        }),
{
    let len = s.unicode_len();
    if start == len {
        return None;
    }
    let ghost t = s@.subrange(start as int, s@.len() as int);
    let mut acc: u64 = 0;
    let mut too_big = false;
    let mut i: usize = start;
    while i < len
        invariant
            start <= i <= len,
            len == s@.len(),
            t == s@.subrange(start as int, s@.len() as int),
            all_digits(t.subrange(0, i - start)),
            !too_big ==> acc == digits_value(t.subrange(0, i - start)),
            too_big ==> digits_value(t.subrange(0, i - start)) > u64::MAX,
        decreases len - i,
    {
        let c = s.get_char(i);
        assert(c == t[i - start]);
        if !('0' <= c && c <= '9') {
            assert(!is_digit(t[i - start]));
            assert(!all_digits(t));
            return None;
        }
        proof {
            lemma_digits_step(t, i - start);
            assert(all_digits(t.subrange(0, i - start + 1))) by {
                let u = t.subrange(0, i - start + 1);
                assert forall|j: int| 0 <= j < u.len() implies #[trigger] is_digit(u[j]) by {
                    if j < i - start {
                        assert(u[j] == t.subrange(0, i - start)[j]);
                    }
                }
            }
        }
        let d = (c as u32 - '0' as u32) as u64;
        if !too_big {
            if acc > (u64::MAX - d) / 10 {
                too_big = true;
            } else {
                acc = acc * 10 + d;
            }
        }
        i = i + 1;
    }
    proof {
        assert(t.subrange(0, t.len() as int) =~= t);
    }
    if too_big {
        None
    } else {
        Some(acc)
    }
}

/// Reads `s` as an `i64`: an optional sign and decimal digits, within range.
pub fn parse_i64(s: &str) -> (r: Option<i64>)
    ensures
        r == i64_of_text(s@),
{
    let len = s.unicode_len();
    if len == 0 {
        return None;
    }
    let c = s.get_char(0);
    if c == '+' || c == '-' {
        assert(s@.drop_first() =~= s@.subrange(1, s@.len() as int));
        match digits_u64(s, 1) {
            None => None,
            Some(m) => {
                if c == '-' {
                    if m <= 9223372036854775808u64 {
                        Some((0i128 - m as i128) as i64)
                    } else {
                        None
                    }
                } else if m <= 9223372036854775807u64 {
                    Some(m as i64)
                } else {
                    None
                }
            },
        }
    } else {
        assert(s@.subrange(0, s@.len() as int) =~= s@);
        match digits_u64(s, 0) {
            None => None,
            Some(m) => if m <= 9223372036854775807u64 {
                Some(m as i64)
            } else {
                None
            },
        }
    }
}

/// Reads `s` as an `i32`: an optional sign and decimal digits, within range.
pub fn parse_i32(s: &str) -> (r: Option<i32>)
    ensures
        r == i32_of_text(s@),
{
    match parse_i64(s) {
        Some(v) => if -2147483648 <= v && v <= 2147483647 {
            Some(v as i32)
        } else {
            None
        },
        None => None,
    }
}

/// Reads `s` as a `u64`: an optional `+` and decimal digits, within range.
pub fn parse_u64(s: &str) -> (r: Option<u64>)
    ensures
        r == u64_of_text(s@),
{
    let len = s.unicode_len();
    if len == 0 {
        return None;
    }
    let c = s.get_char(0);
    if c == '-' {
        None
    } else if c == '+' {
        assert(s@.drop_first() =~= s@.subrange(1, s@.len() as int));
        digits_u64(s, 1)
    } else {
        assert(s@.subrange(0, s@.len() as int) =~= s@);
        digits_u64(s, 0)
    }
}

/// Whether `s` and `t` hold the same characters.
pub fn same_text(s: &str, t: &str) -> (r: bool)
    ensures
        r == (s@ == t@),
{
    let n = s.unicode_len();
    if n != t.unicode_len() {
        return false;
    }
    let mut i: usize = 0;
    while i < n
        invariant
            n == s@.len(),
            n == t@.len(),
            0 <= i <= n,
            forall|j: int| 0 <= j < i ==> s@[j] == t@[j],
        decreases n - i,
    {
        if s.get_char(i) != t.get_char(i) {
            return false;
        }
        i = i + 1;
    }
    assert(s@ =~= t@);
    true
}

/// Reads `s` as a `bool`: exactly `true` or `false`.
pub fn parse_bool(s: &str) -> (r: Option<bool>)
    ensures
        r == bool_of_text(s@),
{
    proof {
        reveal_strlit("true");
        reveal_strlit("false");
    }
    if same_text(s, "true") {
        assert("true"@ =~= seq!['t', 'r', 'u', 'e']);
        Some(true)
    } else if same_text(s, "false") {
        assert("false"@ =~= seq!['f', 'a', 'l', 's', 'e']);
        Some(false)
    } else {
        assert("true"@ =~= seq!['t', 'r', 'u', 'e']);
        assert("false"@ =~= seq!['f', 'a', 'l', 's', 'e']);
        None
    }
}

fn digit_str(d: u64) -> (r: &'static str)
    requires
        d < 10,
    ensures
        r@ == seq![digit_char(d as nat)],
{
    proof {
        reveal_strlit("0");
        reveal_strlit("1");
        reveal_strlit("2");
        reveal_strlit("3");
        reveal_strlit("4");
        reveal_strlit("5");
        reveal_strlit("6");
        reveal_strlit("7");
        reveal_strlit("8");
        reveal_strlit("9");
    }
    let r = if d == 0 {
        "0"
    } else if d == 1 {
        "1"
    } else if d == 2 {
        "2"
    } else if d == 3 {
        "3"
    } else if d == 4 {
        "4"
    } else if d == 5 {
        "5"
    } else if d == 6 {
        "6"
    } else if d == 7 {
        "7"
    } else if d == 8 {
        "8"
    } else {
        "9"
    };
    assert(r@ =~= seq![digit_char(d as nat)]);
    r
}

fn push_nat_text(s: &mut String, n: u64)
    ensures
        final(s)@ == old(s)@ + nat_text(n as nat),
    decreases n,
{
    if n >= 10 {
        push_nat_text(s, n / 10);
    }
    s.append(digit_str(n % 10));
    assert(nat_text(n as nat) =~= if n < 10 {
        seq![digit_char(n as nat)]
    } else {
        nat_text((n / 10) as nat).push(digit_char((n % 10) as nat))
    });
}

/// The decimal text of `v`.
pub fn format_i64(v: i64) -> (r: String)
    ensures
        r@ == int_text(v as int),
{
    let mut s = String::new();
    if v < 0 {
        proof {
            reveal_strlit("-");
        }
        s.append("-");
        let m = (0i128 - v as i128) as u64;
        push_nat_text(&mut s, m);
    } else {
        push_nat_text(&mut s, v as u64);
    }
    s
}

/// The decimal text of `v`.
pub fn format_u64(v: u64) -> (r: String)
    ensures
        r@ == int_text(v as int),
{
    let mut s = String::new();
    push_nat_text(&mut s, v);
    s
}

/// The text form of `b`: `true` or `false`.
pub fn format_bool(b: bool) -> (r: String)
    ensures
        r@ == bool_text(b),
{
    proof {
        reveal_strlit("true");
        reveal_strlit("false");
    }
    if b {
        String::from_str("true")
    } else {
        String::from_str("false")
    }
}

/// The text form of a boolean reads back as that boolean.
pub proof fn lemma_bool_text_reads_back(b: bool)
    ensures
        bool_of_text(bool_text(b)) == Some(b),
{
}

/// Whether `c` has the Unicode `White_Space` property.
pub open spec fn is_white_space(c: char) -> bool {
    let n = c as u32;
    (9 <= n <= 13) || n == 32 || n == 0x85 || n == 0xa0 || n == 0x1680 || (0x2000 <= n <= 0x200a)
        || n == 0x2028 || n == 0x2029 || n == 0x202f || n == 0x205f || n == 0x3000
}

pub open spec fn trim_start_seq(s: Seq<char>) -> Seq<char>
    decreases s.len(),
{
    if s.len() > 0 && is_white_space(s[0]) {
        trim_start_seq(s.drop_first())
    } else {
        s
    }
}

pub open spec fn trim_end_seq(s: Seq<char>) -> Seq<char>
    decreases s.len(),
{
    if s.len() > 0 && is_white_space(s.last()) {
        trim_end_seq(s.drop_last())
    } else {
        s
    }
}

/// `s` without its leading and trailing white space.
pub open spec fn trimmed(s: Seq<char>) -> Seq<char> {
    trim_end_seq(trim_start_seq(s))
}

/// Whether `s` has no leading or trailing white space.
pub open spec fn is_trimmed(s: Seq<char>) -> bool {
    s.len() == 0 || (!is_white_space(s[0]) && !is_white_space(s.last()))
}

proof fn lemma_trim_end_keeps_start(s: Seq<char>)
    requires
        s.len() > 0 ==> !is_white_space(s[0]),
    ensures
        is_trimmed(trim_end_seq(s)),
        trim_end_seq(s).len() > 0 ==> trim_end_seq(s)[0] == s[0],
    decreases s.len(),
{
    if s.len() > 0 && is_white_space(s.last()) {
        let u = s.drop_last();
        if u.len() > 0 {
            assert(u[0] == s[0]);
        }
        lemma_trim_end_keeps_start(u);
    }
}

proof fn lemma_trim_start(s: Seq<char>)
    ensures
        trim_start_seq(s).len() > 0 ==> !is_white_space(trim_start_seq(s)[0]),
    decreases s.len(),
{
    if s.len() > 0 && is_white_space(s[0]) {
        lemma_trim_start(s.drop_first());
    }
}

/// Trimming gives text without leading or trailing white space, and leaves
/// such text as it is.
pub proof fn lemma_trimmed(s: Seq<char>)
    ensures
        is_trimmed(trimmed(s)),
        is_trimmed(s) ==> trimmed(s) == s,
{
    lemma_trim_start(s);
    lemma_trim_end_keeps_start(trim_start_seq(s));
    if is_trimmed(s) && s.len() > 0 {
        assert(trim_start_seq(s) == s);
        assert(trim_end_seq(s) == s);
    }
}

/// Relies on `str::trim`: it removes the leading and trailing characters that
/// have the Unicode `White_Space` property.
#[verifier::external_body]
fn trim_str(s: &str) -> (r: &str)
    ensures
        r@ == trimmed(s@),
{
    s.trim()
}

/// `s` without its leading and trailing white space, as a new string.
pub fn trim_text(s: &str) -> (r: String)
    ensures
        r@ == trimmed(s@),
{
    trim_str(s).to_owned()
}

/// The characters of an optional string.
pub open spec fn text_view(o: Option<String>) -> Option<Seq<char>> {
    match o {
        Some(s) => Some(s@),
        None => None,
    }
}

/// The optional string with its white space trimmed.
pub fn trimmed_optional(e: &Option<String>) -> (r: Option<String>)
    ensures
        text_view(r) == match text_view(*e) {
            Some(s) => Some(trimmed(s)),
            None => None,
        },
{
    match e {
        Some(v) => Some(trim_text(v.as_str())),
        None => None,
    }
}

/// A copy of an optional string.
pub fn copy_text(e: &Option<String>) -> (r: Option<String>)
    ensures
        r == *e,
{
    match e {
        Some(v) => Some(v.clone()),
        None => None,
    }
}

} // verus!
