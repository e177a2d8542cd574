//! Small text utilities: parsing a catalog array literal (brace stripping and
//! comma splitting) and rendering an unsigned number as decimal digits.

use vstd::prelude::*;

verus! {

/// The characters stripped from both ends of a catalog array literal.
pub open spec fn is_brace(c: char) -> bool {
    c == '{' || c == '}'
}

/// `s` with every leading and trailing brace character removed.
pub open spec fn spec_trim_braces(s: Seq<char>) -> Seq<char>
    decreases s.len(),
{
    if s.len() == 0 {
        s
    } else if is_brace(s[0]) {
        spec_trim_braces(s.skip(1))
    } else if is_brace(s.last()) {
        spec_trim_braces(s.drop_last())
    } else {
        s
    }
}

/// `s` split on commas: one more piece than there are commas, with the commas
/// themselves dropped. The empty string splits into one empty piece.
pub open spec fn spec_split_commas(s: Seq<char>) -> Seq<Seq<char>>
    decreases s.len(),
{
    if s.len() == 0 {
        seq![Seq::<char>::empty()]
    } else {
        let prev = spec_split_commas(s.drop_last());
        if s.last() == ',' {
            prev + seq![Seq::<char>::empty()]
        } else {
            prev.update(prev.len() - 1, prev.last().push(s.last()))
        }
    }
}

/// A split always yields at least one piece.
pub proof fn lemma_split_commas_len(s: Seq<char>)
    ensures
        spec_split_commas(s).len() >= 1,
    decreases s.len(),
{
    if s.len() > 0 {
        lemma_split_commas_len(s.drop_last());
    }
}

/// Removes every leading and trailing `{` or `}` character, as
/// `str::trim_matches` does with those two characters.
pub fn trim_braces<'a>(s: &'a str) -> (r: &'a str)
    ensures
        r@ == spec_trim_braces(s@),
    decreases s@.len(),
{
    let n = s.unicode_len();
    if n == 0 {
        s
    } else {
        let first = s.get_char(0);
        if first == '{' || first == '}' {
            let rest = s.substring_char(1, n);
            proof {
                assert(rest@ =~= s@.skip(1));
            }
            trim_braces(rest)
        } else {
            let last = s.get_char(n - 1);
            if last == '{' || last == '}' {
                let rest = s.substring_char(0, n - 1);
                proof {
                    assert(rest@ =~= s@.drop_last());
                }
                trim_braces(rest)
            } else {
                s
            }
        }
    }
}

/// Splits `s` on commas into owned pieces.
pub fn split_commas(s: &str) -> (r: Vec<String>)
    ensures
        r.deep_view() == spec_split_commas(s@),
{
    let n = s.unicode_len();
    let mut out: Vec<String> = Vec::new();
    let mut start: usize = 0;
    let mut i: usize = 0;
    proof {
        assert(s@.subrange(0, 0) =~= Seq::<char>::empty());
        assert(s@.take(0) =~= Seq::<char>::empty());
        assert(out.deep_view() + seq![s@.subrange(0, 0)] =~= seq![Seq::<char>::empty()]);
    }
    while i < n
        invariant
            n == s@.len(),
            start <= i <= n,
            out.deep_view() + seq![s@.subrange(start as int, i as int)] == spec_split_commas(
                s@.take(i as int),
            ),
            forall|j: int| start <= j < i ==> s@[j] != ',',
        decreases n - i,
    {
        let ghost prefix = s@.take(i as int);
        let ghost cur = s@.subrange(start as int, i as int);
        let c = s.get_char(i);
        proof {
            assert(s@.take(i + 1).drop_last() =~= prefix);
            assert(s@.take(i + 1).last() == s@[i as int]);
        }
        if c == ',' {
            let piece = s.substring_char(start, i);
            proof {
                assert(piece@ =~= cur);
                assert(spec_split_commas(s@.take(i + 1)) =~= spec_split_commas(prefix) + seq![
                    Seq::<char>::empty(),
                ]);
            }
            out.push(piece.to_owned());
            proof {
                assert(out.deep_view() =~= spec_split_commas(prefix));
                assert(s@.subrange(i + 1, i + 1) =~= Seq::<char>::empty());
                assert(out.deep_view() + seq![s@.subrange(i + 1, i + 1)] =~= spec_split_commas(
                    s@.take(i + 1),
                ));
            }
            start = i + 1;
        } else {
            proof {
                let prev = spec_split_commas(prefix);
                lemma_split_commas_len(prefix);
                assert(prev == out.deep_view() + seq![cur]);
                assert(prev.last() == cur);
                assert(prev.update(prev.len() - 1, cur.push(s@[i as int])) =~= out.deep_view()
                    + seq![cur.push(s@[i as int])]);
                assert(s@.subrange(start as int, i + 1) =~= cur.push(s@[i as int]));
            }
        }
        i = i + 1;
    }
    let piece = s.substring_char(start, n);
    proof {
        assert(piece@ =~= s@.subrange(start as int, n as int));
        assert(s@.take(n as int) =~= s@);
    }
    out.push(piece.to_owned());
    proof {
        assert(out.deep_view() =~= spec_split_commas(s@));
    }
    out
}

/// The decimal digit character for `d`.
pub open spec fn spec_digit(d: nat) -> char {
    if d == 0 {
        '0'
    } else if d == 1 {
        '1'
    } else if d == 2 {
        '2'
    } else if d == 3 {
        '3'
    } else if d == 4 {
        '4'
    } else if d == 5 {
        '5'
    } else if d == 6 {
        '6'
    } else if d == 7 {
        '7'
    } else if d == 8 {
        '8'
    } else {
        '9'
    }
}

/// The decimal digit string of `n`, most significant digit first.
pub open spec fn spec_decimal(n: nat) -> Seq<char>
    decreases n,
{
    if n < 10 {
        seq![spec_digit(n)]
    } else {
        spec_decimal(n / 10) + seq![spec_digit(n % 10)]
    }
}

fn digit_str(d: u32) -> (r: &'static str)
    requires
        d < 10,
    ensures
        r@ == seq![spec_digit(d as nat)],
{
    match d {
        0 => {
            proof {
                reveal_strlit("0");
                assert("0"@ =~= seq![spec_digit(0)]);
            }
            "0"
        },
        1 => {
            proof {
                reveal_strlit("1");
                assert("1"@ =~= seq![spec_digit(1)]);
            }
            "1"
        },
        2 => {
            proof {
                reveal_strlit("2");
                assert("2"@ =~= seq![spec_digit(2)]);
            }
            "2"
        },
        3 => {
            proof {
                reveal_strlit("3");
                assert("3"@ =~= seq![spec_digit(3)]);
            }
            "3"
        },
        4 => {
            proof {
                reveal_strlit("4");
                assert("4"@ =~= seq![spec_digit(4)]);
            }
            "4"
        },
        5 => {
            proof {
                reveal_strlit("5");
                assert("5"@ =~= seq![spec_digit(5)]);
            }
            "5"
        },
        6 => {
            proof {
                reveal_strlit("6");
                assert("6"@ =~= seq![spec_digit(6)]);
            }
            "6"
        },
        7 => {
            proof {
                reveal_strlit("7");
                assert("7"@ =~= seq![spec_digit(7)]);
            }
            "7"
        },
        8 => {
            proof {
                reveal_strlit("8");
                assert("8"@ =~= seq![spec_digit(8)]);
            }
            "8"
        },
        _ => {
            proof {
                reveal_strlit("9");
                assert("9"@ =~= seq![spec_digit(9)]);
            }
            "9"
        },
    }
}

/// Renders `n` in decimal.
pub fn decimal(n: u32) -> (r: String)
    ensures
        r@ == spec_decimal(n as nat),
    decreases n,
{
    if n < 10 {
        String::from_str(digit_str(n))
    } else {
        let mut s = decimal(n / 10);
        s.append(digit_str(n % 10));
        s
    }
}

} // verus!
