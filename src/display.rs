//! Text helpers for rendering.
use vstd::prelude::*;

verus! {

/// The decimal digit of `d`, for `d < 10`.
pub open spec fn digit_char(d: nat) -> char {
    if d == 0 { '0' } else if d == 1 { '1' } else if d == 2 { '2' } else if d == 3 { '3' }
    else if d == 4 { '4' } else if d == 5 { '5' } else if d == 6 { '6' } else if d == 7 { '7' }
    else if d == 8 { '8' } else { '9' }
}

/// The decimal representation of `n`, without sign or leading zeros.
pub open spec fn decimal(n: nat) -> Seq<char>
    decreases n,
{
    if n < 10 {
        seq![digit_char(n)]
    } else {
        decimal(n / 10).push(digit_char(n % 10))
    }
}

fn digit_str(d: usize) -> (r: &'static str)
    requires
        d < 10,
    ensures
        r@ == seq![digit_char(d as nat)],
{
    proof {
        reveal_strlit("0");
        reveal_strlit("1");
        reveal_strlit("2");
        reveal_strlit("3");
        reveal_strlit("4");
        reveal_strlit("5");
        reveal_strlit("6");
        reveal_strlit("7");
        reveal_strlit("8");
        reveal_strlit("9");
    }
    let r = if d == 0 { "0" } else if d == 1 { "1" } else if d == 2 { "2" } else if d == 3 { "3" }
    else if d == 4 { "4" } else if d == 5 { "5" } else if d == 6 { "6" } else if d == 7 { "7" }
    else if d == 8 { "8" } else { "9" };
    assert(r@ =~= seq![digit_char(d as nat)]);
    r
}

/// Writes `n` in decimal.
pub fn to_decimal(n: usize) -> (r: String)
    ensures
        r@ == decimal(n as nat),
    decreases n,
{
    if n < 10 {
        String::from_str(digit_str(n))
    } else {
        let mut r = to_decimal(n / 10);
        r.append(digit_str(n % 10));
        r
    }
}


/// What the `i`-th character of `t` becomes when each line of `t` is indented:
/// a line break that ends the text, and a carriage return right before a line
/// break, are dropped; a line break followed by more text opens the next
/// indented line.
pub open spec fn indent_piece(t: Seq<char>, i: int) -> Seq<char> {
    if t[i] == '\n' {
        if i == t.len() - 1 {
            seq![]
        } else {
            seq!['\n', ' ', ' ', ' ', ' ']
        }
    } else if t[i] == '\r' && i + 1 < t.len() && t[i + 1] == '\n' {
        seq![]
    } else {
        seq![t[i]]
    }
}

/// The pieces of the first `n` characters of `t`.
pub open spec fn indent_body(t: Seq<char>, n: nat) -> Seq<char>
    decreases n,
{
    if n == 0 || n > t.len() {
        seq![]
    } else {
        indent_body(t, (n - 1) as nat) + indent_piece(t, n - 1)
    }
}

/// `t` with each of its lines prefixed by four spaces, the lines joined by a
/// line break; empty text stays empty.
pub open spec fn indented_text(t: Seq<char>) -> Seq<char> {
    if t.len() == 0 {
        seq![]
    } else {
        seq![' ', ' ', ' ', ' '] + indent_body(t, t.len())
    }
}

/// Prefixes each line of `text` with four spaces.
pub fn indent(text: &str) -> (r: String)
    ensures
        r@ == indented_text(text@),
{
    proof {
        reveal_strlit("    ");
    }
    let n = text.unicode_len();
    let mut r = String::new();
    if n == 0 {
        assert(r@ =~= indented_text(text@));
        return r;
    }
    r.append("    ");
    let mut i: usize = 0;
    while i < n
        invariant
            n == text@.len(),
            i <= n,
            r@ == seq![' ', ' ', ' ', ' '] + indent_body(text@, i as nat),
        decreases n - i,
    {
        let c = text.get_char(i);
        assert(indent_body(text@, (i + 1) as nat) == indent_body(text@, i as nat) + indent_piece(text@, i as int));
        if c == '\n' {
            if i + 1 < n {
                let nl = text.substring_char(i, i + 1);
                assert(nl@ =~= seq!['\n']);
                r.append(nl);
                proof {
                    reveal_strlit("    ");
                }
                r.append("    ");
            }
        } else if c == '\r' && i + 1 < n && text.get_char(i + 1) == '\n' {
        } else {
            let one = text.substring_char(i, i + 1);
            assert(one@ =~= seq![c]);
            r.append(one);
        }
        assert(r@ =~= seq![' ', ' ', ' ', ' '] + indent_body(text@, i as nat) + indent_piece(text@, i as int));
        i = i + 1;
    }
    r
}


/// The lines of `t` as far as its first `n` characters: the lines ended by a
/// line break, and the line still open. A carriage return right before a line
/// break belongs to the break.
pub open spec fn lines_upto(t: Seq<char>, n: nat) -> (Seq<Seq<char>>, Seq<char>)
    decreases n,
{
    if n == 0 || n > t.len() {
        (seq![], seq![])
    } else {
        let (done, cur) = lines_upto(t, (n - 1) as nat);
        if t[n - 1] == '\n' {
            if cur.len() > 0 && cur.last() == '\r' {
                (done.push(cur.drop_last()), seq![])
            } else {
                (done.push(cur), seq![])
            }
        } else {
            (done, cur.push(t[n - 1]))
        }
    }
}

/// The lines of `t`: a final line break ends the last line and opens none, so
/// empty text has no line.
pub open spec fn lines_of(t: Seq<char>) -> Seq<Seq<char>> {
    let (done, cur) = lines_upto(t, t.len());
    if cur.len() > 0 {
        done.push(cur)
    } else {
        done
    }
}

/// Relies on `str::lines`: lines end at `\n` or `\r\n`, the ending is not
/// part of the line, and a final ending opens no further line.
#[verifier::external_body]
pub(crate) fn split_lines(text: &str) -> (r: Vec<String>)
    ensures
        r@.map_values(|l: String| l@) == lines_of(text@),
{
    text.lines().map(String::from).collect()
}

} // verus!
