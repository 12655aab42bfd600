//! Numbers written in decimal on lines of limited length.

use vstd::prelude::*;
use vstd::string::*;

verus! {

/// The character that stands for a digit.
pub open spec fn digit(d: int) -> char {
    if d == 0 {
        '0'
    } else if d == 1 {
        '1'
    } else if d == 2 {
        '2'
    } else if d == 3 {
        '3'
    } else if d == 4 {
        '4'
    } else if d == 5 {
        '5'
    } else if d == 6 {
        '6'
    } else if d == 7 {
        '7'
    } else if d == 8 {
        '8'
    } else {
        '9'
    }
}

/// A number written in decimal, without leading zeros.
pub open spec fn decimal(n: nat) -> Seq<char>
    decreases n,
{
    if n < 10 {
        seq![digit(n as int)]
    } else {
        decimal(n / 10).push(digit((n % 10) as int))
    }
}

/// The longest a line of samples may grow before the next sample starts a
/// new one.
pub const LINE_LIMIT: usize = 70;

/// A text and the length of its last line after one more sample, written as
/// `token`: the sample starts a new line where it would bring the line to
/// the limit.
pub open spec fn wrapped(text: Seq<char>, line_len: int, token: Seq<char>) -> (Seq<char>, int) {
    if line_len + token.len() >= LINE_LIMIT {
        (text.push('\n') + token, token.len() as int)
    } else {
        (text + token, line_len + token.len())
    }
}

/// Whether `text` holds no line break.
pub open spec fn plain(text: Seq<char>) -> bool {
    forall|i: int| 0 <= i < text.len() ==> text[i] != '\n'
}

/// The length of the last line of `text`: what stands behind its last line
/// break, or all of it where it has none.
pub open spec fn last_line(text: Seq<char>) -> int
    decreases text.len(),
{
    if text.len() == 0 {
        0
    } else if text.last() == '\n' {
        0
    } else {
        last_line(text.drop_last()) + 1
    }
}

/// Whether every line of `text` is shorter than `limit`, wherever the text
/// is cut off.
pub open spec fn lines_below(text: Seq<char>, limit: int) -> bool {
    forall|n: int| 0 <= n <= text.len() ==> last_line(#[trigger] text.take(n)) < limit
}

/// A number written in decimal holds digits only.
pub proof fn lemma_decimal_is_plain(n: nat)
    ensures
        plain(decimal(n)),
        decimal(n).len() >= 1,
    decreases n,
{
    if n >= 10 {
        lemma_decimal_is_plain(n / 10);
    }
}

/// Whether `bound` has at most `places` decimal digits.
pub open spec fn fits(bound: nat, places: nat) -> bool
    decreases places,
{
    if places == 0 {
        false
    } else if bound < 10 {
        true
    } else {
        fits(bound / 10, (places - 1) as nat)
    }
}

/// A number is written with no more digits than a number above it.
pub proof fn lemma_decimal_fits(n: nat, bound: nat, places: nat)
    requires
        n <= bound,
        fits(bound, places),
    ensures
        decimal(n).len() <= places,
    decreases places,
{
    if n >= 10 {
        lemma_decimal_fits(n / 10, bound / 10, (places - 1) as nat);
    }
}

/// A machine-sized number is written with twenty digits at most.
pub proof fn lemma_decimal_of_usize(n: usize)
    ensures
        1 <= decimal(n as nat).len() <= 20,
{
    lemma_decimal_is_plain(n as nat);
    assert(fits(0xFFFF_FFFF_FFFF_FFFF, 20)) by {
        reveal_with_fuel(fits, 21);
    }
    lemma_decimal_fits(n as nat, 0xFFFF_FFFF_FFFF_FFFF, 20);
}

/// A line break ends a line and starts an empty one.
pub proof fn lemma_break(text: Seq<char>, limit: int)
    requires
        lines_below(text, limit),
        limit > 0,
    ensures
        lines_below(text.push('\n'), limit),
        last_line(text.push('\n')) == 0,
{
    let longer = text.push('\n');
    assert forall|n: int| 0 <= n <= longer.len() implies last_line(#[trigger] longer.take(n))
        < limit by {
        if n <= text.len() {
            assert(longer.take(n) =~= text.take(n));
        } else {
            assert(longer.take(n) =~= longer);
        }
    }
}

/// Text without line breaks makes the last line longer by its length.
pub proof fn lemma_append(text: Seq<char>, more: Seq<char>, limit: int)
    requires
        lines_below(text, limit),
        plain(more),
        last_line(text) + more.len() < limit,
    ensures
        lines_below(text + more, limit),
        last_line(text + more) == last_line(text) + more.len(),
    decreases more.len(),
{
    assert(text.take(text.len() as int) =~= text);
    if more.len() == 0 {
        assert(text + more =~= text);
    } else {
        let head = more.drop_last();
        lemma_append(text, head, limit);
        let longer = text + more;
        assert(longer.drop_last() =~= text + head);
        assert(longer.last() == more.last());
        assert forall|n: int| 0 <= n <= longer.len() implies last_line(#[trigger] longer.take(n))
            < limit by {
            if n < longer.len() {
                assert(longer.take(n) =~= (text + head).take(n));
            } else {
                assert(longer.take(n) =~= longer);
            }
        }
    }
}

/// Writes one digit behind `text`.
fn push_digit(text: &mut String, d: usize)
    requires
        d < 10,
    ensures
        final(text)@ == old(text)@.push(digit(d as int)),
{
    proof {
        reveal_strlit("0");
        reveal_strlit("1");
        reveal_strlit("2");
        reveal_strlit("3");
        reveal_strlit("4");
        reveal_strlit("5");
        reveal_strlit("6");
        reveal_strlit("7");
        reveal_strlit("8");
        reveal_strlit("9");
    }
    let s: &str = if d == 0 {
        "0"
    } else if d == 1 {
        "1"
    } else if d == 2 {
        "2"
    } else if d == 3 {
        "3"
    } else if d == 4 {
        "4"
    } else if d == 5 {
        "5"
    } else if d == 6 {
        "6"
    } else if d == 7 {
        "7"
    } else if d == 8 {
        "8"
    } else {
        "9"
    };
    assert(s@ =~= seq![digit(d as int)]);
    text.append(s);
    assert(text@ =~= old(text)@.push(digit(d as int)));
}

/// Writes a number in decimal behind `text`.
pub(crate) fn push_decimal(text: &mut String, n: usize)
    ensures
        final(text)@ == old(text)@ + decimal(n as nat),
    decreases n,
{
    if n >= 10 {
        push_decimal(text, n / 10);
    }
    push_digit(text, n % 10);
    assert(text@ =~= old(text)@ + decimal(n as nat));
}

/// Writes a space or a line break behind `text`.
pub(crate) fn push_char(text: &mut String, c: char)
    requires
        c == ' ' || c == '\n',
    ensures
        final(text)@ == old(text)@.push(c),
{
    proof {
        reveal_strlit(" ");
        reveal_strlit("\n");
    }
    let s: &str = if c == ' ' {
        " "
    } else {
        "\n"
    };
    assert(s@ =~= seq![c]);
    text.append(s);
    assert(text@ =~= old(text)@.push(c));
}

/// Writes one sample behind `text`, on a new line where the last one is
/// full.
pub(crate) fn push_sample(text: &mut String, line_len: &mut usize, sample: u8)
    requires
        *old(line_len) < LINE_LIMIT,
    ensures
        (final(text)@, *final(line_len) as int) == wrapped(
            old(text)@,
            *old(line_len) as int,
            decimal(sample as nat).push(' '),
        ),
        *final(line_len) < LINE_LIMIT,
{
    let token_len: usize = if sample >= 100 {
        4
    } else if sample >= 10 {
        3
    } else {
        2
    };
    proof {
        reveal_with_fuel(decimal, 3);
        assert(decimal(sample as nat).push(' ').len() == token_len);
    }
    *line_len = *line_len + token_len;
    if *line_len >= LINE_LIMIT {
        push_char(text, '\n');
        *line_len = token_len;
    }
    let ghost start = text@;
    push_decimal(text, sample as usize);
    push_char(text, ' ');
    assert(text@ =~= start + decimal(sample as nat).push(' '));
}

} // verus!
