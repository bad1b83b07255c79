use vstd::prelude::*;

verus! {

broadcast use vstd::string::group_string_axioms;

/// An ASCII decimal digit.
pub open spec fn is_digit(c: char) -> bool {
    '0' <= c && c <= '9'
}

/// The value of a decimal digit.
pub open spec fn digit_value(c: char) -> int {
    (c as int) - ('0' as int)
}

/// The number a non-empty run of decimal digits denotes.
pub open spec fn digits_value(s: Seq<char>) -> int
    decreases s.len(),
{
    if s.len() == 0 {
        0
    } else {
        digits_value(s.drop_last()) * 10 + digit_value(s.last())
    }
}

/// What `u64::from_str` accepts: an optional `+`, then one or more ASCII digits
/// whose value fits in a `u64` (leading zeros allowed, nothing else).
pub open spec fn spec_parse_u64(s: Seq<char>) -> Option<u64> {
    let body = unsigned_body(s);
    if body.len() > 0 && all_digits(body) && digits_value(body) <= u64::MAX {
        Some(digits_value(body) as u64)
    } else {
        None
    }
}

/// The text after an optional leading `+`.
pub open spec fn unsigned_body(s: Seq<char>) -> Seq<char> {
    if s.len() > 0 && s[0] == '+' { s.drop_first() } else { s }
}

/// Every character is an ASCII digit.
pub open spec fn all_digits(s: Seq<char>) -> bool {
    forall|i: int| 0 <= i < s.len() ==> is_digit(#[trigger] s[i])
}

proof fn lemma_digits_value_nonneg(s: Seq<char>)
    requires
        forall|i: int| 0 <= i < s.len() ==> is_digit(#[trigger] s[i]),
    ensures
        digits_value(s) >= 0,
    decreases s.len(),
{
    if s.len() > 0 {
        assert(is_digit(s[s.len() - 1]));
        lemma_digits_value_nonneg(s.drop_last());
    }
}

/// Parses a decimal `u64` the way `str::parse::<u64>` does.
pub fn parse_u64(s: &str) -> (r: Option<u64>)
    ensures
        r == spec_parse_u64(s@),
{
    let ghost text = s@;
    let ghost body = if text.len() > 0 && text[0] == '+' { text.drop_first() } else { text };
    let mut value: u64 = 0;
    let ghost mut count: int = 0;
    let mut any_digit_slot = false;
    let mut first = true;
    let mut skipped_plus = false;
    let mut overflow = false;
    let mut bad = false;
    for c in it: s.chars()
        invariant
            it.seq() == text,
            text == s@,
            body == (if text.len() > 0 && text[0] == '+' { text.drop_first() } else { text }),
            first <==> it.index() == 0,
            skipped_plus <==> (it.index() > 0 && text[0] == '+'),
            count == it.index() - (if skipped_plus { 1int } else { 0 }),
            0 <= count <= it.index(),
            any_digit_slot <==> count > 0,
            !bad ==> forall|i: int| 0 <= i < count ==> is_digit(#[trigger] body[i]),
            bad <==> exists|i: int| 0 <= i < count && !is_digit(#[trigger] body[i]),
            !bad && !overflow ==> value == digits_value(body.take(count)),
            !bad ==> (overflow <==> digits_value(body.take(count)) > u64::MAX),
    {
        let ghost k = it.index();
        if first && c == '+' {
            skipped_plus = true;
            first = false;
            assert(body =~= text.drop_first());
        } else {
            first = false;
            assert(body[count] == c);
            assert(body.take(count + 1).drop_last() =~= body.take(count));
            if '0' <= c && c <= '9' {
                if !bad {
                    proof {
                        lemma_digits_value_nonneg(body.take(count));
                    }
                    let d = (c as u32 - '0' as u32) as u64;
                    if !overflow {
                        if value > (u64::MAX - d) / 10 {
                            overflow = true;
                        } else {
                            value = value * 10 + d;
                        }
                    }
                }
            } else {
                bad = true;
            }
            proof {
                count = count + 1;
            }
            any_digit_slot = true;
        }
    }
    proof {
        assert(count == body.len());
        assert(body.take(count) =~= body);
    }
    if !any_digit_slot || bad || overflow {
        if !any_digit_slot {
            assert(body.len() == 0);
            assert(spec_parse_u64(s@) is None);
        } else if bad {
            let ghost i = choose|i: int| 0 <= i < count && !is_digit(#[trigger] body[i]);
            assert(!is_digit(body[i]));
            assert(body == unsigned_body(s@));
            assert(!all_digits(body));
            assert(spec_parse_u64(s@) is None);
        } else {
            assert(digits_value(body) > u64::MAX);
            assert(spec_parse_u64(s@) is None);
        }
        None
    } else {
        assert(value == digits_value(body));
        assert(spec_parse_u64(s@) == Some(value));
        Some(value)
    }
}

/// The character of a decimal digit `d < 10`.
pub open spec fn digit_char(d: int) -> char {
    ((d + 48) as u8) as char
}

/// The decimal representation of `n`, as `Display` renders an unsigned integer.
pub open spec fn decimal(n: nat) -> Seq<char>
    decreases n,
{
    if n < 10 {
        seq![digit_char(n as int)]
    } else {
        decimal(n / 10).push(digit_char((n % 10) as int))
    }
}

/// Appends `c` to `s` (`String::push`).
#[verifier::external_body]
pub(crate) fn push_char(s: &mut String, c: char)
    ensures
        final(s)@ == old(s)@.push(c),
{
    s.push(c);
}

/// Appends the decimal representation of `n` to `out`.
pub fn push_decimal(out: &mut String, n: u64)
    ensures
        final(out)@ == old(out)@ + decimal(n as nat),
    decreases n,
{
    if n >= 10 {
        push_decimal(out, n / 10);
    }
    let d: u8 = (n % 10) as u8;
    let c = (d + 48u8) as char;
    push_char(out, c);
    proof {
        if n >= 10 {
            assert(decimal(n as nat) == decimal((n / 10) as nat).push(digit_char((n % 10) as int)));
        } else {
            assert(decimal(n as nat) == seq![digit_char(n as int)]);
        }
    }
}

/// The characters of `s`, in order.
pub fn chars_of(s: &str) -> (v: Vec<char>)
    ensures
        v@ == s@,
{
    let mut v: Vec<char> = Vec::new();
    for c in it: s.chars()
        invariant
            it.seq() == s@,
            v@ == s@.take(it.index()),
    {
        assert(s@.take(it.index() + 1) =~= s@.take(it.index()).push(c));
        v.push(c);
    }
    assert(s@.take(s@.len() as int) =~= s@);
    v
}

/// Whether two strings hold the same characters (`str == str`).
pub fn same_text(a: &str, b: &str) -> (eq: bool)
    ensures
        eq == (a@ == b@),
{
    let x = chars_of(a);
    let y = chars_of(b);
    if x.len() != y.len() {
        return false;
    }
    let mut i: usize = 0;
    while i < x.len()
        invariant
            x@ == a@,
            y@ == b@,
            x@.len() == y@.len(),
            i <= x@.len(),
            forall|j: int| 0 <= j < i ==> x@[j] == y@[j],
        decreases x.len() - i,
    {
        if x[i] != y[i] {
            return false;
        }
        i = i + 1;
    }
    assert(x@ =~= y@);
    true
}

/// `needle` occurs in `hay` as a contiguous run of characters (the empty needle
/// occurs everywhere).
pub open spec fn spec_contains(hay: Seq<char>, needle: Seq<char>) -> bool {
    exists|i: int| 0 <= i <= hay.len() - needle.len() && #[trigger] hay.subrange(i, i + needle.len()) == needle
}

/// Substring search (`str::contains` with a string pattern).
pub fn contains_text(hay: &str, needle: &str) -> (found: bool)
    ensures
        found == spec_contains(hay@, needle@),
{
    let h = chars_of(hay);
    let n = chars_of(needle);
    if n.len() > h.len() {
        proof {
            assert forall|i: int| 0 <= i <= hay@.len() - needle@.len() implies #[trigger] hay@.subrange(
                i,
                i + needle@.len(),
            ) != needle@ by {}
        }
        return false;
    }
    let hl = h.len();
    let last = hl - n.len();
    let mut i: usize = 0;
    while i <= last
        invariant
            h@ == hay@,
            n@ == needle@,
            n@.len() <= h@.len(),
            last == h@.len() - n@.len(),
            h@.len() == hl,
            i <= last + 1,
            forall|k: int| 0 <= k < i ==> #[trigger] hay@.subrange(k, k + needle@.len()) != needle@,
        decreases last + 1 - i,
    {
        let mut j: usize = 0;
        let mut matched = true;
        while j < n.len()
            invariant
                h@ == hay@,
                n@ == needle@,
                i <= last,
                last == h@.len() - n@.len(),
                h@.len() <= usize::MAX,
                j <= n@.len(),
                matched ==> forall|q: int| 0 <= q < j ==> h@[i + q] == n@[q],
                !matched ==> exists|q: int| 0 <= q < n@.len() && h@[i + q] != n@[q],
            decreases n.len() - j,
        {
            if h[i + j] != n[j] {
                matched = false;
            }
            j = j + 1;
        }
        if matched {
            assert(hay@.subrange(i as int, i + needle@.len()) =~= needle@);
            return true;
        }
        proof {
            let q = choose|q: int| 0 <= q < n@.len() && h@[i + q] != n@[q];
            assert(hay@.subrange(i as int, i + needle@.len())[q] != needle@[q]);
        }
        if i == last {
            proof {
                assert forall|k: int| 0 <= k <= hay@.len() - needle@.len() implies #[trigger] hay@.subrange(
                    k,
                    k + needle@.len(),
                ) != needle@ by {}
            }
            return false;
        }
        i = i + 1;
    }
    false
}

} // verus!
