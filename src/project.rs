use vstd::prelude::*;

verus! {

/// The characters of `s` before its first `.` (all of `s` when it has none).
pub open spec fn head_of(s: Seq<char>) -> Seq<char>
    decreases s.len(),
{
    if s.len() == 0 || s[0] == '.' {
        Seq::empty()
    } else {
        seq![s[0]] + head_of(s.drop_first())
    }
}

pub open spec fn is_digit(c: char) -> bool {
    '0' <= c && c <= '9'
}

pub open spec fn digit_value(c: char) -> int {
    c as int - '0' as int
}

/// The value of a string of decimal digits, most significant first.
pub open spec fn digits_value(s: Seq<char>) -> int
    decreases s.len(),
{
    if s.len() == 0 {
        0
    } else {
        digits_value(s.drop_last()) * 10 + digit_value(s.last())
    }
}

/// The digits of an unsigned number, after an optional leading `+`.
pub open spec fn unsigned_digits(s: Seq<char>) -> Seq<char> {
    if s.len() > 0 && s[0] == '+' {
        s.drop_first()
    } else {
        s
    }
}

/// An unsigned 32-bit number written in decimal: at least one digit, only
/// digits after an optional `+`, and a value that fits in 32 bits.
pub open spec fn parse_u32(s: Seq<char>) -> Option<u32> {
    let d = unsigned_digits(s);
    if d.len() > 0 && (forall|i: int| 0 <= i < d.len() ==> is_digit(#[trigger] d[i]))
        && digits_value(d) <= u32::MAX {
        Some(digits_value(d) as u32)
    } else {
        None
    }
}

/// The project id of a composite project string such as `123.v2`.
pub open spec fn project_id_of(s: Seq<char>) -> Option<u32> {
    parse_u32(head_of(s))
}

proof fn lemma_head_of_prefix(s: Seq<char>, i: int)
    requires
        0 <= i <= s.len(),
        forall|j: int| 0 <= j < i ==> s[j] != '.',
    ensures
        head_of(s) == s.take(i) + head_of(s.skip(i)),
    decreases i,
{
    if i > 0 {
        lemma_head_of_prefix(s.drop_first(), i - 1);
        assert(s.drop_first().skip(i - 1) =~= s.skip(i));
        assert(seq![s[0]] + s.drop_first().take(i - 1) =~= s.take(i));
        assert(seq![s[0]] + (s.drop_first().take(i - 1) + head_of(s.drop_first().skip(i - 1)))
            =~= s.take(i) + head_of(s.skip(i)));
    } else {
        assert(s.take(0) =~= Seq::<char>::empty());
        assert(s.skip(0) =~= s);
    }
}

proof fn lemma_digits_value_nonneg(s: Seq<char>)
    requires
        forall|i: int| 0 <= i < s.len() ==> is_digit(#[trigger] s[i]),
    ensures
        digits_value(s) >= 0,
    decreases s.len(),
{
    if s.len() > 0 {
        lemma_digits_value_nonneg(s.drop_last());
        assert(is_digit(s[s.len() - 1]));
    }
}

/// Extracts the project id from a composite project string: the part before
/// the first `.`, read as an unsigned 32-bit decimal number.
pub fn get_project_id(project: &String) -> (r: Option<u32>)
    ensures
        r == project_id_of(project@),
{
    let s = project.as_str();
    let n = s.unicode_len();
    let mut end: usize = 0;
    while end < n && s.get_char(end) != '.'
        invariant
            n == s@.len(),
            s@ == project@,
            end <= n,
            forall|j: int| 0 <= j < end ==> s@[j] != '.',
        decreases n - end,
    {
        end = end + 1;
    }
    proof {
        lemma_head_of_prefix(s@, end as int);
        assert(head_of(s@.skip(end as int)) =~= Seq::<char>::empty());
        assert(head_of(s@) =~= s@.take(end as int));
    }
    let ghost h = s@.take(end as int);
    let mut start: usize = 0;
    if end > 0 && s.get_char(0) == '+' {
        start = 1;
    }
    let ghost d = h.subrange(start as int, end as int);
    assert(unsigned_digits(h) =~= d);
    if start == end {
        return None;
    }
    let mut value: u64 = 0;
    let mut overflow = false;
    let mut k: usize = start;
    while k < end
        invariant
            n == s@.len(),
            s@ == project@,
            h == s@.take(end as int),
            h == head_of(project@),
            unsigned_digits(h) == d,
            d == h.subrange(start as int, end as int),
            start <= k <= end <= n,
            forall|j: int| start <= j < k ==> is_digit(#[trigger] s@[j]),
            overflow ==> digits_value(s@.subrange(start as int, k as int)) > u32::MAX,
            !overflow ==> value == digits_value(s@.subrange(start as int, k as int)),
            value <= u32::MAX,
        decreases end - k,
    {
        let c = s.get_char(k);
        if c < '0' || c > '9' {
            assert(d[k - start] == c);
            assert(!is_digit(d[k - start]));
            assert(parse_u32(h) is None);
            return None;
        }
        let ghost prev = s@.subrange(start as int, k as int);
        let ghost next = s@.subrange(start as int, k + 1);
        assert(next.drop_last() =~= prev);
        assert(next.last() == c);
        proof {
            lemma_digits_value_nonneg(prev);
        }
        if !overflow {
            let v = value * 10 + (c as u64 - '0' as u64);
            if v > u32::MAX as u64 {
                overflow = true;
            } else {
                value = v;
            }
        }
        k = k + 1;
    }
    assert(s@.subrange(start as int, end as int) =~= d);
    if overflow {
        None
    } else {
        Some(value as u32)
    }
}

} // verus!
