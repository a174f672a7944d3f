//! Names of the files downloads are stored in: `{lane}_{sequence}.jpg`.
use vstd::prelude::*;

verus! {

/// The ASCII digit for `d`, for `d < 10`.
pub open spec fn digit_char(d: nat) -> char {
    if d == 0 {
        '0'
    } else if d == 1 {
        '1'
    } else if d == 2 {
        '2'
    } else if d == 3 {
        '3'
    } else if d == 4 {
        '4'
    } else if d == 5 {
        '5'
    } else if d == 6 {
        '6'
    } else if d == 7 {
        '7'
    } else if d == 8 {
        '8'
    } else {
        '9'
    }
}

pub open spec fn is_digit(c: char) -> bool {
    '0' <= c <= '9'
}

/// The decimal representation of `n`, without leading zeros.
pub open spec fn decimal(n: nat) -> Seq<char>
    decreases n,
{
    if n < 10 {
        seq![digit_char(n)]
    } else {
        decimal(n / 10).push(digit_char(n % 10))
    }
}

/// The name of the file that holds the download numbered `seq` of lane `lane`.
pub open spec fn file_name(lane: nat, seq: nat) -> Seq<char> {
    decimal(lane) + "_"@ + decimal(seq) + ".jpg"@
}

fn digit_str(d: usize) -> (r: &'static str)
    requires
        d < 10,
    ensures
        r@ == seq![digit_char(d as nat)],
{
    proof {
        reveal_strlit("0");
        reveal_strlit("1");
        reveal_strlit("2");
        reveal_strlit("3");
        reveal_strlit("4");
        reveal_strlit("5");
        reveal_strlit("6");
        reveal_strlit("7");
        reveal_strlit("8");
        reveal_strlit("9");
    }
    let r = if d == 0 {
        "0"
    } else if d == 1 {
        "1"
    } else if d == 2 {
        "2"
    } else if d == 3 {
        "3"
    } else if d == 4 {
        "4"
    } else if d == 5 {
        "5"
    } else if d == 6 {
        "6"
    } else if d == 7 {
        "7"
    } else if d == 8 {
        "8"
    } else {
        "9"
    };
    assert(r@ =~= seq![digit_char(d as nat)]);
    r
}

/// Appends the decimal representation of `n` to `out`.
pub fn push_decimal(out: &mut String, n: usize)
    ensures
        final(out)@ == old(out)@ + decimal(n as nat),
    decreases n,
{
    if n >= 10 {
        push_decimal(out, n / 10);
    }
    out.append(digit_str(n % 10));
    proof {
        if n >= 10 {
            assert(decimal(n as nat) == decimal((n / 10) as nat).push(digit_char((n % 10) as nat)));
        }
    }
    assert(final(out)@ =~= old(out)@ + decimal(n as nat));
}

/// The name of the file that holds the download numbered `seq` of lane `lane`.
pub fn download_file_name(lane: usize, seq: usize) -> (r: String)
    ensures
        r@ == file_name(lane as nat, seq as nat),
{
    let mut r = String::new();
    push_decimal(&mut r, lane);
    r.append("_");
    push_decimal(&mut r, seq);
    r.append(".jpg");
    assert(r@ =~= file_name(lane as nat, seq as nat));
    r
}

proof fn lemma_digit_char_injective(a: nat, b: nat)
    requires
        a < 10,
        b < 10,
        digit_char(a) == digit_char(b),
    ensures
        a == b,
{
    assert(('0' as u32) < ('1' as u32) < ('2' as u32) < ('3' as u32) < ('4' as u32) < ('5' as u32)
        < ('6' as u32) < ('7' as u32) < ('8' as u32) < ('9' as u32));
}

proof fn lemma_decimal_digits(n: nat)
    ensures
        decimal(n).len() >= 1,
        n >= 10 ==> decimal(n).len() >= 2,
        forall|i: int| 0 <= i < decimal(n).len() ==> is_digit(#[trigger] decimal(n)[i]),
    decreases n,
{
    if n >= 10 {
        lemma_decimal_digits(n / 10);
        assert forall|i: int| 0 <= i < decimal(n).len() implies is_digit(#[trigger] decimal(n)[i]) by {
            if i < decimal(n / 10).len() {
                assert(decimal(n)[i] == decimal(n / 10)[i]);
            }
        }
    }
}

/// Distinct numbers have distinct decimal representations.
pub proof fn lemma_decimal_injective(a: nat, b: nat)
    requires
        decimal(a) == decimal(b),
    ensures
        a == b,
    decreases a,
{
    lemma_decimal_digits(a);
    lemma_decimal_digits(b);
    if a >= 10 && b >= 10 {
        let da = decimal(a / 10);
        let db = decimal(b / 10);
        assert(decimal(a).last() == digit_char(a % 10));
        assert(decimal(b).last() == digit_char(b % 10));
        assert(da =~= decimal(a).drop_last());
        assert(db =~= decimal(b).drop_last());
        lemma_decimal_injective(a / 10, b / 10);
        lemma_digit_char_injective(a % 10, b % 10);
    } else if a < 10 && b < 10 {
        assert(decimal(a)[0] == decimal(b)[0]);
        assert(decimal(a)[0] == digit_char(a));
        assert(decimal(b)[0] == digit_char(b));
        lemma_digit_char_injective(a, b);
    } else {
        assert(decimal(a).len() != decimal(b).len());
    }
}

/// Different (lane, sequence) pairs give different file names.
pub proof fn lemma_file_name_injective(l1: nat, s1: nat, l2: nat, s2: nat)
    requires
        file_name(l1, s1) == file_name(l2, s2),
    ensures
        l1 == l2,
        s1 == s2,
{
    reveal_strlit("_");
    reveal_strlit(".jpg");
    let x = file_name(l1, s1);
    let d1 = decimal(l1);
    let d2 = decimal(l2);
    lemma_decimal_digits(l1);
    lemma_decimal_digits(l2);
    if d1.len() < d2.len() {
        assert(x[d1.len() as int] == '_');
        assert(x[d1.len() as int] == d2[d1.len() as int]);
        assert(is_digit(d2[d1.len() as int]));
    } else if d2.len() < d1.len() {
        assert(x[d2.len() as int] == '_');
        assert(x[d2.len() as int] == d1[d2.len() as int]);
        assert(is_digit(d1[d2.len() as int]));
    }
    assert(d1 =~= x.subrange(0, d1.len() as int));
    assert(d2 =~= x.subrange(0, d2.len() as int));
    lemma_decimal_injective(l1, l2);
    let e1 = decimal(s1);
    let e2 = decimal(s2);
    assert("_"@.len() == 1);
    assert(".jpg"@.len() == 4);
    assert(x.len() == d1.len() + 1 + e1.len() + 4);
    assert(file_name(l2, s2).len() == d2.len() + 1 + e2.len() + 4);
    assert(e1.len() == e2.len());
    assert(e1 =~= x.subrange(d1.len() + 1int, d1.len() + 1int + e1.len()));
    assert(e2 =~= x.subrange(d1.len() + 1int, d1.len() + 1int + e1.len()));
    lemma_decimal_injective(s1, s2);
}

} // verus!
