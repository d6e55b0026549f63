use vstd::prelude::*;
use vstd::string::*;
use crate::date::Date;

verus! {

/// The one-character text of a decimal digit.
pub open spec fn digit_seq(d: int) -> Seq<char> {
    if d == 0 {
        "0"@
    } else if d == 1 {
        "1"@
    } else if d == 2 {
        "2"@
    } else if d == 3 {
        "3"@
    } else if d == 4 {
        "4"@
    } else if d == 5 {
        "5"@
    } else if d == 6 {
        "6"@
    } else if d == 7 {
        "7"@
    } else if d == 8 {
        "8"@
    } else {
        "9"@
    }
}

/// The decimal text of a natural number, most significant digit first and
/// without leading zeros.
pub open spec fn dec_seq(n: nat) -> Seq<char>
    decreases n,
{
    if n < 10 {
        digit_seq(n as int)
    } else {
        dec_seq(n / 10) + digit_seq((n % 10) as int)
    }
}

/// The decimal text of a number, padded with zeros on the left to at least
/// two places.
pub open spec fn pad2_seq(n: nat) -> Seq<char> {
    if n < 10 {
        "0"@ + dec_seq(n)
    } else {
        dec_seq(n)
    }
}

/// The decimal text of a number, padded with zeros on the left to at least
/// four places.
pub open spec fn pad4_seq(n: nat) -> Seq<char> {
    if n < 10 {
        "000"@ + dec_seq(n)
    } else if n < 100 {
        "00"@ + dec_seq(n)
    } else if n < 1000 {
        "0"@ + dec_seq(n)
    } else {
        dec_seq(n)
    }
}

/// A date in `YYYY-MM-DD` form: four-digit year, two-digit month and day.
pub open spec fn date_seq(d: Date) -> Seq<char> {
    pad4_seq(d.year as nat) + "-"@ + pad2_seq(d.month as nat) + "-"@ + pad2_seq(d.day as nat)
}

/// One line of the plan: the day's date and its page sub-range.
pub open spec fn line_seq(d: Date, first: nat, last: nat) -> Seq<char> {
    "Date: "@ + date_seq(d) + ". Pages: "@ + dec_seq(first) + "-"@ + dec_seq(last)
}

/// The text holds no newline character.
pub open spec fn newline_free(s: Seq<char>) -> bool {
    forall|i: int| 0 <= i < s.len() ==> s[i] != '\n'
}

/// How many newline characters the text holds.
pub open spec fn newline_count(s: Seq<char>) -> nat
    decreases s.len(),
{
    if s.len() == 0 {
        0
    } else {
        (if s[0] == '\n' {
            1nat
        } else {
            0nat
        }) + newline_count(s.drop_first())
    }
}

/// A text without newlines holds zero of them.
pub proof fn lemma_newline_free_count_zero(s: Seq<char>)
    requires
        newline_free(s),
    ensures
        newline_count(s) == 0,
    decreases s.len(),
{
    if s.len() > 0 {
        assert(newline_free(s.drop_first()));
        lemma_newline_free_count_zero(s.drop_first());
    }
}

/// Newlines in a concatenation are the newlines of the two parts.
pub proof fn lemma_newline_count_concat(a: Seq<char>, b: Seq<char>)
    ensures
        newline_count(a + b) == newline_count(a) + newline_count(b),
    decreases a.len(),
{
    if a.len() == 0 {
        assert(a + b =~= b);
    } else {
        lemma_newline_count_concat(a.drop_first(), b);
        assert((a + b).drop_first() =~= a.drop_first() + b);
        assert((a + b)[0] == a[0]);
    }
}

/// A concatenation of newline-free texts is newline-free.
pub proof fn lemma_newline_free_concat(a: Seq<char>, b: Seq<char>)
    requires
        newline_free(a),
        newline_free(b),
    ensures
        newline_free(a + b),
{
    assert forall|i: int| 0 <= i < (a + b).len() implies (a + b)[i] != '\n' by {
        if i < a.len() {
            assert((a + b)[i] == a[i]);
        } else {
            assert((a + b)[i] == b[i - a.len()]);
        }
    }
}

/// Digits are not newlines.
pub proof fn lemma_digit_seq_newline_free(d: int)
    ensures
        newline_free(digit_seq(d)),
{
    reveal_strlit("0");
    reveal_strlit("1");
    reveal_strlit("2");
    reveal_strlit("3");
    reveal_strlit("4");
    reveal_strlit("5");
    reveal_strlit("6");
    reveal_strlit("7");
    reveal_strlit("8");
    reveal_strlit("9");
}

/// Decimal texts hold no newline.
pub proof fn lemma_dec_seq_newline_free(n: nat)
    ensures
        newline_free(dec_seq(n)),
    decreases n,
{
    if n < 10 {
        lemma_digit_seq_newline_free(n as int);
    } else {
        lemma_dec_seq_newline_free(n / 10);
        lemma_digit_seq_newline_free((n % 10) as int);
        lemma_newline_free_concat(dec_seq(n / 10), digit_seq((n % 10) as int));
    }
}

/// Zero-padded decimal texts hold no newline.
pub proof fn lemma_pad_seq_newline_free(n: nat)
    ensures
        newline_free(pad2_seq(n)),
        newline_free(pad4_seq(n)),
{
    reveal_strlit("0");
    reveal_strlit("00");
    reveal_strlit("000");
    lemma_dec_seq_newline_free(n);
    lemma_newline_free_concat("0"@, dec_seq(n));
    lemma_newline_free_concat("00"@, dec_seq(n));
    lemma_newline_free_concat("000"@, dec_seq(n));
}

/// A date in `YYYY-MM-DD` form holds no newline.
pub proof fn lemma_date_seq_newline_free(d: Date)
    ensures
        newline_free(date_seq(d)),
{
    reveal_strlit("-");
    lemma_pad_seq_newline_free(d.year as nat);
    lemma_pad_seq_newline_free(d.month as nat);
    lemma_pad_seq_newline_free(d.day as nat);
    let s1 = pad4_seq(d.year as nat) + "-"@;
    lemma_newline_free_concat(pad4_seq(d.year as nat), "-"@);
    let s2 = s1 + pad2_seq(d.month as nat);
    lemma_newline_free_concat(s1, pad2_seq(d.month as nat));
    let s3 = s2 + "-"@;
    lemma_newline_free_concat(s2, "-"@);
    lemma_newline_free_concat(s3, pad2_seq(d.day as nat));
}

/// A plan line holds no newline.
pub proof fn lemma_line_seq_newline_free(d: Date, first: nat, last: nat)
    ensures
        newline_free(line_seq(d, first, last)),
{
    reveal_strlit("Date: ");
    reveal_strlit(". Pages: ");
    reveal_strlit("-");
    lemma_date_seq_newline_free(d);
    lemma_dec_seq_newline_free(first);
    lemma_dec_seq_newline_free(last);
    let s1 = "Date: "@ + date_seq(d);
    lemma_newline_free_concat("Date: "@, date_seq(d));
    let s2 = s1 + ". Pages: "@;
    lemma_newline_free_concat(s1, ". Pages: "@);
    let s3 = s2 + dec_seq(first);
    lemma_newline_free_concat(s2, dec_seq(first));
    let s4 = s3 + "-"@;
    lemma_newline_free_concat(s3, "-"@);
    lemma_newline_free_concat(s4, dec_seq(last));
}

/// The text of a single decimal digit.
pub fn digit_str(d: u64) -> (r: &'static str)
    requires
        d < 10,
    ensures
        r@ == digit_seq(d as int),
{
    if d == 0 {
        "0"
    } else if d == 1 {
        "1"
    } else if d == 2 {
        "2"
    } else if d == 3 {
        "3"
    } else if d == 4 {
        "4"
    } else if d == 5 {
        "5"
    } else if d == 6 {
        "6"
    } else if d == 7 {
        "7"
    } else if d == 8 {
        "8"
    } else {
        "9"
    }
}

/// Writes a number in decimal.
pub fn dec_string(n: u64) -> (r: String)
    ensures
        r@ == dec_seq(n as nat),
    decreases n,
{
    if n < 10 {
        digit_str(n).to_owned()
    } else {
        let mut s = dec_string(n / 10);
        s.append(digit_str(n % 10));
        s
    }
}

/// Writes a number in decimal, zero-padded to at least two places.
pub fn pad2_string(n: u64) -> (r: String)
    ensures
        r@ == pad2_seq(n as nat),
{
    if n < 10 {
        let mut s = "0".to_owned();
        s.append(dec_string(n).as_str());
        s
    } else {
        dec_string(n)
    }
}

/// Writes a number in decimal, zero-padded to at least four places.
pub fn pad4_string(n: u64) -> (r: String)
    ensures
        r@ == pad4_seq(n as nat),
{
    if n < 10 {
        let mut s = "000".to_owned();
        s.append(dec_string(n).as_str());
        s
    } else if n < 100 {
        let mut s = "00".to_owned();
        s.append(dec_string(n).as_str());
        s
    } else if n < 1000 {
        let mut s = "0".to_owned();
        s.append(dec_string(n).as_str());
        s
    } else {
        dec_string(n)
    }
}

/// Writes a date in `YYYY-MM-DD` form.
pub fn date_string(d: &Date) -> (r: String)
    ensures
        r@ == date_seq(*d),
{
    let mut s = pad4_string(d.year as u64);
    s.append("-");
    s.append(pad2_string(d.month as u64).as_str());
    s.append("-");
    s.append(pad2_string(d.day as u64).as_str());
    proof {
        assert(s@ =~= date_seq(*d));
    }
    s
}

/// Writes one line of the plan.
pub fn line_string(d: &Date, first: u64, last: u64) -> (r: String)
    ensures
        r@ == line_seq(*d, first as nat, last as nat),
{
    let mut s = "Date: ".to_owned();
    s.append(date_string(d).as_str());
    s.append(". Pages: ");
    s.append(dec_string(first).as_str());
    s.append("-");
    s.append(dec_string(last).as_str());
    proof {
        assert(s@ =~= line_seq(*d, first as nat, last as nat));
    }
    s
}

} // verus!
