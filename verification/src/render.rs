//! Verified rendering of numbers into report text: decimal for counts,
//! offsets and lengths, lowercase hexadecimal with a `0x` prefix for
//! checksums.

use vstd::prelude::*;

verus! {

/// The character for one digit value below 16, lowercase.
pub open spec fn digit_char(d: int) -> char {
    if d == 0 {
        '0'
    } else if d == 1 {
        '1'
    } else if d == 2 {
        '2'
    } else if d == 3 {
        '3'
    } else if d == 4 {
        '4'
    } else if d == 5 {
        '5'
    } else if d == 6 {
        '6'
    } else if d == 7 {
        '7'
    } else if d == 8 {
        '8'
    } else if d == 9 {
        '9'
    } else if d == 10 {
        'a'
    } else if d == 11 {
        'b'
    } else if d == 12 {
        'c'
    } else if d == 13 {
        'd'
    } else if d == 14 {
        'e'
    } else {
        'f'
    }
}

/// The decimal rendering of a nonnegative number, most significant digit
/// first, no leading zeros except for zero itself.
pub open spec fn spec_dec(n: int) -> Seq<char>
    recommends
        n >= 0,
    decreases n,
{
    if n < 10 {
        seq![digit_char(n)]
    } else {
        spec_dec(n / 10).push(digit_char(n % 10))
    }
}

/// The lowercase hexadecimal rendering of a nonnegative number, most
/// significant digit first, no leading zeros except for zero itself.
pub open spec fn spec_hex(n: int) -> Seq<char>
    recommends
        n >= 0,
    decreases n,
{
    if n < 16 {
        seq![digit_char(n)]
    } else {
        spec_hex(n / 16).push(digit_char(n % 16))
    }
}

/// Appends the character for one digit value.
fn append_digit(out: &mut String, d: u8)
    requires
        d < 16,
    ensures
        final(out)@ == old(out)@ + seq![digit_char(d as int)],
{
    proof {
        reveal_strlit("0");
        reveal_strlit("1");
        reveal_strlit("2");
        reveal_strlit("3");
        reveal_strlit("4");
        reveal_strlit("5");
        reveal_strlit("6");
        reveal_strlit("7");
        reveal_strlit("8");
        reveal_strlit("9");
        reveal_strlit("a");
        reveal_strlit("b");
        reveal_strlit("c");
        reveal_strlit("d");
        reveal_strlit("e");
        reveal_strlit("f");
    }
    match d {
        0 => out.append("0"),
        1 => out.append("1"),
        2 => out.append("2"),
        3 => out.append("3"),
        4 => out.append("4"),
        5 => out.append("5"),
        6 => out.append("6"),
        7 => out.append("7"),
        8 => out.append("8"),
        9 => out.append("9"),
        10 => out.append("a"),
        11 => out.append("b"),
        12 => out.append("c"),
        13 => out.append("d"),
        14 => out.append("e"),
        _ => out.append("f"),
    }
    proof {
        assert(out@ =~= old(out)@ + seq![digit_char(d as int)]);
    }
}

/// Appends the decimal rendering of a number.
pub fn append_dec(out: &mut String, n: u64)
    ensures
        final(out)@ == old(out)@ + spec_dec(n as int),
    decreases n,
{
    if n >= 10 {
        append_dec(out, n / 10);
    }
    append_digit(out, (n % 10) as u8);
    proof {
        assert(out@ =~= old(out)@ + spec_dec(n as int));
    }
}

/// Appends the lowercase hexadecimal rendering of a number.
pub fn append_hex(out: &mut String, n: u64)
    ensures
        final(out)@ == old(out)@ + spec_hex(n as int),
    decreases n,
{
    if n >= 16 {
        append_hex(out, n / 16);
    }
    append_digit(out, (n % 16) as u8);
    proof {
        assert(out@ =~= old(out)@ + spec_hex(n as int));
    }
}

/// The concatenation of one rendering for each element of a sequence, in
/// order.
pub open spec fn concat_reports<M>(f: spec_fn(M) -> Seq<char>, ms: Seq<M>) -> Seq<char>
    decreases ms.len(),
{
    if ms.len() == 0 {
        Seq::empty()
    } else {
        f(ms[0]) + concat_reports(f, ms.drop_first())
    }
}

/// Rendering one more element appends its rendering.
pub proof fn lemma_concat_reports_push<M>(f: spec_fn(M) -> Seq<char>, ms: Seq<M>, m: M)
    ensures
        concat_reports(f, ms.push(m)) == concat_reports(f, ms) + f(m),
    decreases ms.len(),
{
    if ms.len() == 0 {
        assert(ms.push(m)[0] == m);
        assert(ms.push(m).drop_first() =~= ms);
        assert(concat_reports(f, ms.push(m)) == f(m) + concat_reports(f, ms));
        assert(f(m) + Seq::<char>::empty() =~= Seq::<char>::empty() + f(m));
        assert(concat_reports(f, ms.push(m)) == concat_reports(f, ms) + f(m));
    } else {
        assert(ms.push(m)[0] == ms[0]);
        assert(ms.push(m).drop_first() =~= ms.drop_first().push(m));
        lemma_concat_reports_push(f, ms.drop_first(), m);
        assert(concat_reports(f, ms.push(m)) == f(ms[0]) + concat_reports(
            f,
            ms.drop_first().push(m),
        ));
        assert(concat_reports(f, ms) == f(ms[0]) + concat_reports(f, ms.drop_first()));
        assert(f(ms[0]) + (concat_reports(f, ms.drop_first()) + f(m)) =~= (f(ms[0])
            + concat_reports(f, ms.drop_first())) + f(m));
        assert(concat_reports(f, ms.push(m)) == concat_reports(f, ms) + f(m));
    }
}

/// The decimal rendering of one user-data word, space-terminated.
pub open spec fn word_dec_fn() -> spec_fn(u16) -> Seq<char> {
    |w: u16| spec_dec(w as int) + " "@
}

/// The mathematical value of an optional word block.
pub open spec fn view_opt_words(u: Option<Vec<u16>>) -> Option<Seq<u16>> {
    match u {
        Some(ws) => Some(ws@),
        None => None,
    }
}

/// The report rendering of an optional user-data block: `None` when absent,
/// else the words in decimal.
pub open spec fn spec_user_data(u: Option<Seq<u16>>) -> Seq<char> {
    match u {
        None => "None"@,
        Some(ws) => "Some(["@ + concat_reports(word_dec_fn(), ws) + "])"@,
    }
}

/// Appends the rendering of an optional user-data block.
#[verifier::loop_isolation(false)]
pub fn append_user_data(out: &mut String, u: &Option<Vec<u16>>)
    ensures
        final(out)@ == old(out)@ + spec_user_data(view_opt_words(*u)),
{
    match u {
        None => {
            out.append("None");
            proof {
                assert(out@ =~= old(out)@ + spec_user_data(view_opt_words(*u)));
            }
        },
        Some(ws) => {
            out.append("Some([");
            let ghost prefix = out@;
            let n = ws.len();
            let mut i: usize = 0;
            while i < n
                invariant
                    i <= n,
                    out@ == prefix + concat_reports(word_dec_fn(), ws@.take(i as int)),
                decreases n - i,
            {
                append_dec(out, ws[i] as u64);
                out.append(" ");
                proof {
                    lemma_concat_reports_push(word_dec_fn(), ws@.take(i as int), ws@[i as int]);
                    assert(ws@.take(i + 1) =~= ws@.take(i as int).push(ws@[i as int]));
                    assert(word_dec_fn()(ws@[i as int]) == spec_dec(ws@[i as int] as int) + " "@);
                    assert(out@ =~= prefix + concat_reports(word_dec_fn(), ws@.take(i + 1)));
                }
                i += 1;
            }
            out.append("])");
            proof {
                assert(ws@.take(n as int) =~= ws@);
                assert(out@ =~= old(out)@ + spec_user_data(view_opt_words(*u)));
            }
        },
    }
}

} // verus!
