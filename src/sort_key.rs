use vstd::prelude::*;

verus! {

pub open spec fn is_digit(c: char) -> bool {
    '0' <= c && c <= '9'
}

pub open spec fn digit_value(c: char) -> int {
    (c as u32) as int - ('0' as u32) as int
}

/// The value of a string of decimal digits.
pub open spec fn digits_value(s: Seq<char>) -> int
    decreases s.len(),
{
    if s.len() == 0 {
        0
    } else {
        digits_value(s.drop_last()) * 10 + digit_value(s.last())
    }
}

pub open spec fn all_digits(s: Seq<char>) -> bool {
    s.len() > 0 && forall|i: int| 0 <= i < s.len() ==> is_digit(#[trigger] s[i])
}

/// A signed decimal integer in the range of `i64`: an optional `+` or `-`
/// followed by at least one digit, nothing else.
pub open spec fn parse_i64(s: Seq<char>) -> Option<int> {
    if s.len() > 0 && (s[0] == '-' || s[0] == '+') {
        let d = s.drop_first();
        let v = if s[0] == '-' {
            -digits_value(d)
        } else {
            digits_value(d)
        };
        if all_digits(d) && i64::MIN <= v <= i64::MAX {
            Some(v)
        } else {
            None
        }
    } else if all_digits(s) && i64::MIN <= digits_value(s) <= i64::MAX {
        Some(digits_value(s))
    } else {
        None
    }
}

/// The index of the last occurrence of `c`, or -1.
pub open spec fn last_index_of(s: Seq<char>, c: char) -> int
    decreases s.len(),
{
    if s.len() == 0 {
        -1
    } else if s.last() == c {
        s.len() - 1
    } else {
        last_index_of(s.drop_last(), c)
    }
}

/// The ordering key of a pending artifact's file name: split at the last
/// `-`; when the part after it is an integer the key is the part before it
/// and that number, otherwise the whole name and zero. A name without `-`
/// is all suffix, with an empty prefix.
pub open spec fn sort_key_spec(name: Seq<char>) -> (Seq<char>, int) {
    let p = last_index_of(name, '-');
    let prefix = if p >= 0 {
        name.subrange(0, p)
    } else {
        Seq::empty()
    };
    let suffix = if p >= 0 {
        name.subrange(p + 1, name.len() as int)
    } else {
        name
    };
    match parse_i64(suffix) {
        Some(n) => (prefix, n),
        None => (name, 0),
    }
}

proof fn lemma_last_index_bounds(s: Seq<char>, c: char)
    ensures
        -1 <= last_index_of(s, c) < s.len(),
        last_index_of(s, c) >= 0 ==> s[last_index_of(s, c)] == c,
    decreases s.len(),
{
    if s.len() > 0 {
        lemma_last_index_bounds(s.drop_last(), c);
    }
}

const CAP: u128 = 9223372036854775809;

/// `min(digits_value(s[from..]), CAP)` when every character there is a
/// digit; `None` when one is not or the range is empty.
fn clamped_digits(s: &str, from: usize) -> (r: Option<u128>)
    requires
        from <= s@.len(),
    ensures
        all_digits(s@.subrange(from as int, s@.len() as int)) == r.is_some(),
        r.is_some() ==> r->Some_0 as int == if digits_value(s@.subrange(from as int, s@.len() as int))
            < CAP {
            digits_value(s@.subrange(from as int, s@.len() as int))
        } else {
            CAP as int
        },
{
    let n = s.unicode_len();
    if from >= n {
        return None;
    }
    let mut acc: u128 = 0;
    let mut i: usize = from;
    while i < n
        invariant
            from <= i <= n,
            n == s@.len(),
            from < n,
            forall|k: int| from <= k < i ==> is_digit(#[trigger] s@[k]),
            acc as int == if digits_value(s@.subrange(from as int, i as int)) < CAP {
                digits_value(s@.subrange(from as int, i as int))
            } else {
                CAP as int
            },
            acc <= CAP,
        decreases n - i,
    {
        let c = s.get_char(i);
        if !('0' <= c && c <= '9') {
            proof {
                let t = s@.subrange(from as int, s@.len() as int);
                assert(t[i - from] == c);
            }
            return None;
        }
        let d = (c as u32 - '0' as u32) as u128;
        proof {
            let t = s@.subrange(from as int, i as int + 1);
            assert(t.drop_last() =~= s@.subrange(from as int, i as int));
            assert(digits_value(t) == digits_value(t.drop_last()) * 10 + digit_value(c));
            assert(digits_value(s@.subrange(from as int, i as int)) >= 0) by {
                lemma_digits_nonneg(s@.subrange(from as int, i as int));
            }
        }
        let next = acc * 10 + d;
        acc = if next > CAP {
            CAP
        } else {
            next
        };
        i += 1;
    }
    proof {
        let t = s@.subrange(from as int, s@.len() as int);
        assert forall|k: int| 0 <= k < t.len() implies is_digit(#[trigger] t[k]) by {
            assert(t[k] == s@[from + k]);
        }
    }
    Some(acc)
}

proof fn lemma_digits_nonneg(s: Seq<char>)
    requires
        forall|i: int| 0 <= i < s.len() ==> is_digit(#[trigger] s[i]),
    ensures
        digits_value(s) >= 0,
    decreases s.len(),
{
    if s.len() > 0 {
        let t = s.drop_last();
        assert forall|i: int| 0 <= i < t.len() implies is_digit(#[trigger] t[i]) by {
            assert(t[i] == s[i]);
        }
        lemma_digits_nonneg(t);
        assert(is_digit(s[s.len() - 1]));
    }
}

/// `parse_i64` of the characters of `s` from index `from` on.
fn parse_i64_from(s: &str, from: usize) -> (r: Option<i64>)
    requires
        from <= s@.len(),
    ensures
        r == match parse_i64(s@.subrange(from as int, s@.len() as int)) {
            Some(v) => Some(v as i64),
            None => None,
        },
{
    let ghost t = s@.subrange(from as int, s@.len() as int);
    let n = s.unicode_len();
    if from < n {
        let c = s.get_char(from);
        assert(t[0] == c);
        if c == '-' || c == '+' {
            proof {
                assert(t.drop_first() =~= s@.subrange(from as int + 1, s@.len() as int));
            }
            match clamped_digits(s, from + 1) {
                None => None,
                Some(m) => {
                    if c == '-' {
                        if m <= 9223372036854775808 {
                            Some((0 - (m as i128)) as i64)
                        } else {
                            None
                        }
                    } else {
                        if m <= 9223372036854775807 {
                            Some(m as i64)
                        } else {
                            None
                        }
                    }
                },
            }
        } else {
            match clamped_digits(s, from) {
                None => None,
                Some(m) => {
                    if m <= 9223372036854775807 {
                        Some(m as i64)
                    } else {
                        None
                    }
                },
            }
        }
    } else {
        None
    }
}

/// The ordering key of a pending artifact's file name; see `sort_key_spec`.
/// Suffixes compare as numbers, so `foo-9` orders before `foo-10`.
pub fn sort_key(name: &str) -> (r: (String, i64))
    ensures
        r.0@ == sort_key_spec(name@).0,
        r.1 as int == sort_key_spec(name@).1,
{
    let n = name.unicode_len();
    let mut i: usize = n;
    let mut dash: Option<usize> = None;
    assert(name@.subrange(0, n as int) =~= name@);
    while i > 0 && dash.is_none()
        invariant
            i <= n,
            n == name@.len(),
            dash is None ==> last_index_of(name@, '-') == last_index_of(name@.subrange(0, i as int), '-'),
            dash is Some ==> dash->Some_0 < n && last_index_of(name@, '-') == dash->Some_0 as int,
        decreases i,
    {
        let c = name.get_char(i - 1);
        proof {
            assert(name@.subrange(0, i as int).drop_last() =~= name@.subrange(0, i as int - 1));
        }
        if c == '-' {
            dash = Some(i - 1);
        }
        i -= 1;
    }
    proof {
        if dash is None {
            assert(name@.subrange(0, 0) =~= Seq::<char>::empty());
        }
        lemma_last_index_bounds(name@, '-');
    }
    let (prefix, from): (&str, usize) = match dash {
        Some(p) => (name.substring_char(0, p), p + 1),
        None => ("", 0),
    };
    proof {
        reveal_strlit("");
        assert(name@.subrange(0, 0) =~= Seq::<char>::empty());
        assert(name@.subrange(0, n as int) =~= name@);
    }
    match parse_i64_from(name, from) {
        Some(v) => (prefix.to_owned(), v),
        None => (name.to_owned(), 0),
    }
}

} // verus!
