//! Low-level text operations the database reader is built on:
//! splitting on a delimiter character and reading unsigned decimal numbers.

use vstd::prelude::*;
use vstd::string::StrSliceExecFns;
use vstd::string::StringExecFns;

verus! {

/// The fields of `s` delimited by `sep`. Every occurrence of `sep` ends a
/// field, so the result always holds one more field than there are
/// separators; splitting an empty sequence yields one empty field.
pub open spec fn spec_split(s: Seq<char>, sep: char) -> Seq<Seq<char>>
    decreases s.len(),
{
    if s.len() == 0 {
        seq![Seq::<char>::empty()]
    } else if s[0] == sep {
        seq![Seq::<char>::empty()] + spec_split(s.drop_first(), sep)
    } else {
        let rest = spec_split(s.drop_first(), sep);
        seq![seq![s[0]] + rest[0]] + rest.drop_first()
    }
}

/// Splitting a sequence with no separator in it yields that sequence as the
/// single field.
pub proof fn lemma_split_no_sep(s: Seq<char>, sep: char)
    requires
        forall|k: int| 0 <= k < s.len() ==> s[k] != sep,
    ensures
        spec_split(s, sep) == seq![s],
    decreases s.len(),
{
    if s.len() == 0 {
        assert(s =~= Seq::<char>::empty());
    } else if s[0] == sep {
    } else {
        lemma_split_no_sep(s.drop_first(), sep);
        let rest = spec_split(s.drop_first(), sep);
        assert(rest == seq![s.drop_first()]);
        assert(seq![s[0]] + s.drop_first() =~= s);
        assert(rest.drop_first() =~= Seq::<Seq<char>>::empty());
        assert(spec_split(s, sep) =~= seq![s]);
    }
}

/// Splitting at the first separator: the part before it is the first field,
/// and the rest of the fields are those of the part after it.
pub proof fn lemma_split_at_first_sep(s: Seq<char>, sep: char, i: int)
    requires
        0 <= i < s.len(),
        s[i] == sep,
        forall|k: int| 0 <= k < i ==> s[k] != sep,
    ensures
        spec_split(s, sep) == seq![s.subrange(0, i)] + spec_split(
            s.subrange(i + 1, s.len() as int),
            sep,
        ),
    decreases i,
{
    if i == 0 {
        assert(s.subrange(0, 0) =~= Seq::<char>::empty());
        assert(s.subrange(1, s.len() as int) =~= s.drop_first());
    } else {
        let t = s.drop_first();
        assert(t[i - 1] == sep);
        lemma_split_at_first_sep(t, sep, i - 1);
        let rest = spec_split(t, sep);
        assert(rest == seq![t.subrange(0, i - 1)] + spec_split(
            t.subrange(i, t.len() as int),
            sep,
        ));
        assert(rest[0] == t.subrange(0, i - 1));
        assert(seq![s[0]] + t.subrange(0, i - 1) =~= s.subrange(0, i));
        assert(rest.drop_first() =~= spec_split(t.subrange(i, t.len() as int), sep));
        assert(t.subrange(i, t.len() as int) =~= s.subrange(i + 1, s.len() as int));
        assert(spec_split(s, sep) =~= seq![s.subrange(0, i)] + spec_split(
            s.subrange(i + 1, s.len() as int),
            sep,
        ));
    }
}

/// Splits `s` at every occurrence of `sep`, as `spec_split` describes.
pub fn split_on(s: &str, sep: char) -> (parts: Vec<String>)
    ensures
        parts@.map_values(|p: String| p@) == spec_split(s@, sep),
{
    let n = s.unicode_len();
    let mut parts: Vec<String> = Vec::new();
    let mut start: usize = 0;
    let mut i: usize = 0;
    proof {
        assert(s@.subrange(0, n as int) =~= s@);
        assert(parts@.map_values(|p: String| p@) + spec_split(s@, sep) =~= spec_split(s@, sep));
    }
    while i < n
        invariant
            n == s@.len(),
            start <= i <= n,
            forall|k: int| start <= k < i ==> s@[k] != sep,
            spec_split(s@, sep) == parts@.map_values(|p: String| p@) + spec_split(
                s@.subrange(start as int, n as int),
                sep,
            ),
        decreases n - i,
    {
        let c = s.get_char(i);
        if c == sep {
            let field = s.substring_char(start, i);
            let field_string = String::from_str(field);
            proof {
                let sub = s@.subrange(start as int, n as int);
                let j = i - start;
                assert(sub[j as int] == sep);
                assert(forall|k: int| 0 <= k < j ==> sub[k] != sep);
                lemma_split_at_first_sep(sub, sep, j as int);
                assert(sub.subrange(0, j as int) =~= s@.subrange(start as int, i as int));
                assert(sub.subrange(j + 1, sub.len() as int) =~= s@.subrange(
                    i + 1,
                    n as int,
                ));
                assert(field_string@ == sub.subrange(0, j as int));
                assert((parts@.push(field_string)).map_values(|p: String| p@) =~= parts@
                    .map_values(|p: String| p@).push(field_string@));
            }
            parts.push(field_string);
            start = i + 1;
        }
        i += 1;
    }
    let field = s.substring_char(start, n);
    let field_string = String::from_str(field);
    proof {
        lemma_split_no_sep(s@.subrange(start as int, n as int), sep);
        assert((parts@.push(field_string)).map_values(|p: String| p@) =~= parts@.map_values(
            |p: String| p@,
        ).push(field_string@));
    }
    parts.push(field_string);
    parts
}

/// `c` is an ASCII decimal digit.
pub open spec fn is_digit(c: char) -> bool {
    48 <= c as int && c as int <= 57
}

/// The numeric value of the digit `c`.
pub open spec fn digit_val(c: char) -> int {
    c as int - 48
}

/// Every character of `s` is a decimal digit.
pub open spec fn all_digits(s: Seq<char>) -> bool {
    forall|k: int| 0 <= k < s.len() ==> is_digit(s[k])
}

/// The value of `s` read as a decimal numeral, most significant digit first.
pub open spec fn digits_val(s: Seq<char>) -> int
    decreases s.len(),
{
    if s.len() == 0 {
        0
    } else {
        digits_val(s.drop_last()) * 10 + digit_val(s.last())
    }
}

/// The digit portion of a decimal numeral: one leading plus sign, when
/// present, is accepted and ignored.
pub open spec fn spec_numeral_digits(s: Seq<char>) -> Seq<char> {
    if s.len() > 0 && s[0] == '+' {
        s.drop_first()
    } else {
        s
    }
}

/// What parsing `s` as an unsigned 32-bit decimal number yields: the value
/// of its digits when — after an optional single leading plus sign — `s` is
/// non-empty, all digits, and in range; nothing otherwise.
pub open spec fn spec_parse_u32(s: Seq<char>) -> Option<u32> {
    let digits = spec_numeral_digits(s);
    if digits.len() > 0 && all_digits(digits) && digits_val(digits) <= u32::MAX as int {
        Some(digits_val(digits) as u32)
    } else {
        None
    }
}

pub proof fn lemma_digits_val_nonneg(s: Seq<char>)
    requires
        all_digits(s),
    ensures
        digits_val(s) >= 0,
    decreases s.len(),
{
    if s.len() > 0 {
        assert(all_digits(s.drop_last()));
        lemma_digits_val_nonneg(s.drop_last());
        assert(is_digit(s.last()));
    }
}

/// A numeral's value never drops when digits are appended: the value of a
/// prefix is a lower bound on the value of the whole.
pub proof fn lemma_digits_val_prefix_le(s: Seq<char>, i: int)
    requires
        all_digits(s),
        0 <= i <= s.len(),
    ensures
        digits_val(s.subrange(0, i)) <= digits_val(s),
    decreases s.len() - i,
{
    if i == s.len() {
        assert(s.subrange(0, i) =~= s);
    } else {
        let shorter = s.subrange(0, i);
        let longer = s.subrange(0, i + 1);
        assert(longer.drop_last() =~= shorter);
        assert(longer.last() == s[i]);
        assert(all_digits(shorter));
        lemma_digits_val_nonneg(shorter);
        assert(is_digit(s[i]));
        assert(digits_val(longer) == digits_val(shorter) * 10 + digit_val(s[i]));
        assert(digits_val(shorter) * 10 >= digits_val(shorter));
        lemma_digits_val_prefix_le(s, i + 1);
    }
}

/// Parses `s` as an unsigned 32-bit decimal number, as `spec_parse_u32`
/// describes: digits after at most one leading plus sign, no surrounding
/// space, value within range.
pub fn parse_u32(s: &str) -> (r: Option<u32>)
    ensures
        r == spec_parse_u32(s@),
{
    let n = s.unicode_len();
    if n == 0 {
        return None;
    }
    let first = s.get_char(0);
    let start: usize = if first == '+' {
        1
    } else {
        0
    };
    let ghost digits = spec_numeral_digits(s@);
    proof {
        assert(s@.subrange(start as int, n as int) =~= digits);
    }
    if start == n {
        return None;
    }
    let mut acc: u64 = 0;
    let mut i: usize = start;
    proof {
        assert(digits.subrange(0, 0) =~= Seq::<char>::empty());
    }
    while i < n
        invariant
            n == s@.len(),
            digits == spec_numeral_digits(s@),
            digits == s@.subrange(start as int, n as int),
            start <= i <= n,
            start < n,
            all_digits(digits.subrange(0, i - start)),
            acc as int == digits_val(digits.subrange(0, i - start)),
            acc <= u32::MAX as u64,
        decreases n - i,
    {
        let c = s.get_char(i);
        let cv: u32 = c as u32;
        proof {
            assert(digits[i - start] == s@[i as int]);
        }
        if cv < 48 || cv > 57 {
            proof {
                assert(!is_digit(digits[i - start]));
                assert(!all_digits(digits));
            }
            return None;
        }
        let d: u64 = (cv - 48) as u64;
        let next: u64 = acc * 10 + d;
        proof {
            let prefix = digits.subrange(0, i - start);
            let extended = digits.subrange(0, i - start + 1);
            assert(extended.drop_last() =~= prefix);
            assert(extended.last() == digits[i - start]);
            assert(next as int == digits_val(extended));
        }
        if next > u32::MAX as u64 {
            proof {
                if all_digits(digits) {
                    lemma_digits_val_prefix_le(digits, i - start + 1);
                    assert(digits_val(digits) > u32::MAX as int);
                }
            }
            return None;
        }
        acc = next;
        i += 1;
    }
    proof {
        assert(digits.subrange(0, n - start) =~= digits);
    }
    Some(acc as u32)
}

} // verus!
