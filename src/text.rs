use vstd::prelude::*;
use vstd::string::*;

verus! {

/// The characters that separate the fields of a sidecar line: those with
/// Unicode's White_Space property, as `char::is_whitespace` has them.
pub open spec fn is_ws(c: char) -> bool {
    let u = c as u32;
    (0x09 <= u <= 0x0D) || u == 0x20 || u == 0x85 || u == 0xA0 || u == 0x1680 || (0x2000 <= u
        <= 0x200A) || u == 0x2028 || u == 0x2029 || u == 0x202F || u == 0x205F || u == 0x3000
}

/// The maximal runs of non-separator characters of `s`, in order.
pub open spec fn split_ws(s: Seq<char>) -> Seq<Seq<char>>
    decreases s.len(),
{
    if s.len() == 0 {
        Seq::empty()
    } else {
        let rest = split_ws(s.drop_last());
        if is_ws(s.last()) {
            rest
        } else if s.len() >= 2 && !is_ws(s[s.len() - 2]) {
            rest.update(rest.len() - 1, rest.last().push(s.last()))
        } else {
            rest.push(seq![s.last()])
        }
    }
}

/// The text of strings.
pub open spec fn texts(v: Seq<String>) -> Seq<Seq<char>> {
    v.map_values(|s: String| s@)
}

fn is_separator(c: char) -> (r: bool)
    ensures
        r == is_ws(c),
{
    let u = c as u32;
    (0x09 <= u && u <= 0x0D) || u == 0x20 || u == 0x85 || u == 0xA0 || u == 0x1680 || (0x2000
        <= u && u <= 0x200A) || u == 0x2028 || u == 0x2029 || u == 0x202F || u == 0x205F || u
        == 0x3000
}

proof fn lemma_split_ws_step(s: Seq<char>, i: int)
    requires
        0 <= i < s.len(),
    ensures
        split_ws(s.subrange(0, i + 1)) == {
            let rest = split_ws(s.subrange(0, i));
            if is_ws(s[i]) {
                rest
            } else if i >= 1 && !is_ws(s[i - 1]) {
                rest.update(rest.len() - 1, rest.last().push(s[i]))
            } else {
                rest.push(seq![s[i]])
            }
        },
{
    assert(s.subrange(0, i + 1).drop_last() =~= s.subrange(0, i));
}

/// The fields of a line: its maximal runs of characters other than whitespace.
pub fn split_whitespace(line: &str) -> (r: Vec<String>)
    ensures
        texts(r@) == split_ws(line@),
{
    let n = line.unicode_len();
    let mut done: Vec<String> = Vec::new();
    let mut start: usize = 0;
    let mut in_token = false;
    let mut i: usize = 0;
    while i < n
        invariant
            n == line@.len(),
            i <= n,
            start <= i,
            in_token ==> start < i && !is_ws(line@[i - 1]),
            !in_token ==> (i == 0 || is_ws(line@[i - 1])),
            in_token ==> split_ws(line@.subrange(0, i as int)) == texts(done@).push(
                line@.subrange(start as int, i as int),
            ),
            !in_token ==> split_ws(line@.subrange(0, i as int)) == texts(done@),
        decreases n - i,
    {
        let c = line.get_char(i);
        proof {
            lemma_split_ws_step(line@, i as int);
        }
        if is_separator(c) {
            if in_token {
                let tok = line.substring_char(start, i).to_owned();
                let ghost old = done@;
                done.push(tok);
                proof {
                    assert(texts(done@) =~= texts(old).push(tok@));
                }
                in_token = false;
            }
        } else {
            if !in_token {
                start = i;
                in_token = true;
                proof {
                    assert(line@.subrange(start as int, i + 1) =~= seq![c]);
                }
            } else {
                proof {
                    let rest = texts(done@).push(line@.subrange(start as int, i as int));
                    assert(line@.subrange(start as int, i as int).push(c) =~= line@.subrange(
                        start as int,
                        i + 1,
                    ));
                    assert(rest.update(rest.len() - 1, rest.last().push(c)) =~= texts(done@).push(
                        line@.subrange(start as int, i + 1),
                    ));
                }
            }
        }
        i = i + 1;
    }
    if in_token {
        let tok = line.substring_char(start, n).to_owned();
        let ghost old = done@;
        done.push(tok);
        proof {
            assert(texts(done@) =~= texts(old).push(tok@));
        }
    }
    proof {
        assert(line@.subrange(0, n as int) =~= line@);
    }
    done
}

/// The character of a decimal digit.
pub open spec fn digit_char(d: int) -> char {
    ((d + 48) as u8) as char
}

/// The decimal digits of `n`, without sign or leading zeros.
pub open spec fn decimal(n: nat) -> Seq<char>
    decreases n,
{
    if n < 10 {
        seq![digit_char(n as int)]
    } else {
        decimal(n / 10).push(digit_char((n % 10) as int))
    }
}

/// The decimal text of an integer, with a leading '-' when it is negative.
pub open spec fn signed_decimal(v: int) -> Seq<char> {
    if v < 0 {
        seq!['-'] + decimal((-v) as nat)
    } else {
        decimal(v as nat)
    }
}

/// The value of a run of decimal digits, if it is one.
pub open spec fn digits_value(s: Seq<char>) -> Option<int>
    decreases s.len(),
{
    if s.len() == 0 || !('0' <= s.last() <= '9') {
        None
    } else if s.len() == 1 {
        Some(s.last() as int - 48)
    } else {
        match digits_value(s.drop_last()) {
            Some(v) => Some(v * 10 + (s.last() as int - 48)),
            None => None,
        }
    }
}

/// The value of an optional '+' or '-' followed by decimal digits, if the text
/// is one.
pub open spec fn signed_value(s: Seq<char>) -> Option<int> {
    if s.len() > 0 && s[0] == '-' {
        match digits_value(s.drop_first()) {
            Some(v) => Some(-v),
            None => None,
        }
    } else if s.len() > 0 && s[0] == '+' {
        digits_value(s.drop_first())
    } else {
        digits_value(s)
    }
}

/// Whether a text is a 32-bit integer.
pub open spec fn is_i32_text(s: Seq<char>) -> bool {
    signed_value(s) matches Some(v) && i32::MIN <= v <= i32::MAX
}

/// Relies on `str::parse::<i32>`: an optional sign, then ASCII digits only, and a
/// value in range; anything else is an error.
#[verifier::external_body]
pub fn parse_i32(s: &str) -> (r: Result<i32, std::num::ParseIntError>)
    ensures
        match r {
            Ok(v) => signed_value(s@) == Some(v as int),
            Err(_) => !is_i32_text(s@),
        },
{
    s.parse::<i32>()
}

fn digit_str(d: u32) -> (r: &'static str)
    requires
        d < 10,
    ensures
        r@ == seq![digit_char(d as int)],
{
    proof {
        reveal_strlit("0");
        reveal_strlit("1");
        reveal_strlit("2");
        reveal_strlit("3");
        reveal_strlit("4");
        reveal_strlit("5");
        reveal_strlit("6");
        reveal_strlit("7");
        reveal_strlit("8");
        reveal_strlit("9");
    }
    let r = if d == 0 {
        "0"
    } else if d == 1 {
        "1"
    } else if d == 2 {
        "2"
    } else if d == 3 {
        "3"
    } else if d == 4 {
        "4"
    } else if d == 5 {
        "5"
    } else if d == 6 {
        "6"
    } else if d == 7 {
        "7"
    } else if d == 8 {
        "8"
    } else {
        "9"
    };
    proof {
        assert(r@ =~= seq![digit_char(d as int)]);
    }
    r
}

/// Appends the decimal digits of `n` to `s`.
pub fn push_decimal(s: &mut String, n: u64)
    ensures
        final(s)@ == old(s)@ + decimal(n as nat),
    decreases n,
{
    if n >= 10 {
        push_decimal(s, n / 10);
    }
    let d = (n % 10) as u32;
    s.append(digit_str(d));
    proof {
        if n >= 10 {
            assert(decimal(n as nat) == decimal((n / 10) as nat).push(digit_char((n % 10) as int)));
        }
    }
}

/// Appends the decimal text of `v` to `s`, with a '-' when it is negative.
pub fn push_signed_decimal(s: &mut String, v: i32)
    ensures
        final(s)@ == old(s)@ + signed_decimal(v as int),
{
    if v < 0 {
        s.append("-");
        proof {
            reveal_strlit("-");
        }
        let m: u64 = (-(v as i64)) as u64;
        push_decimal(s, m);
        proof {
            assert(final(s)@ =~= old(s)@ + signed_decimal(v as int));
        }
    } else {
        push_decimal(s, v as u64);
    }
}

/// Appends `prefix` and then the decimal digits of `n`.
pub fn numbered(prefix: &str, n: usize) -> (r: String)
    ensures
        r@ == prefix@ + decimal(n as nat),
{
    let mut s = prefix.to_owned();
    push_decimal(&mut s, n as u64);
    s
}

} // verus!
