//! Laws of the interpreter, stated over whole input lines.
use vstd::prelude::*;

use crate::command::{error_message, is_builtin, parse_spec, step_spec, tokens, ActionView, CommandView, ParseErrorView};
use crate::index::ExecutableIndex;
use crate::text::{
    all_digits, digits_value, is_digit, is_ws, join_with, parse_i32, parse_int, lemma_join_split, lemma_split_on_concat, lemma_split_on_nonempty, lemma_split_on_without_sep,
    lemma_trim_end_concat, split_on, trim, trim_end, trim_start,
};

verus! {

proof fn lemma_trim_start_blank(line: Seq<char>)
    requires
        forall|k: int| 0 <= k < line.len() ==> is_ws(#[trigger] line[k]),
    ensures
        trim_start(line).len() == 0,
    decreases line.len(),
{
    if line.len() > 0 {
        assert(is_ws(line[0]));
        assert forall|k: int| 0 <= k < line.drop_first().len() implies is_ws(
            #[trigger] line.drop_first()[k],
        ) by {
            assert(line.drop_first()[k] == line[k + 1]);
        }
        lemma_trim_start_blank(line.drop_first());
    }
}

proof fn lemma_trim_end_last(s: Seq<char>)
    ensures
        trim_end(s).len() > 0 ==> !is_ws(trim_end(s).last()),
    decreases s.len(),
{
    if s.len() > 0 && is_ws(s.last()) {
        lemma_trim_end_last(s.drop_last());
    }
}

/// A blank line prints one empty line and does not end the interpreter.
pub proof fn lemma_blank_line(line: Seq<char>, index: ExecutableIndex)
    requires
        forall|k: int| 0 <= k < line.len() ==> is_ws(#[trigger] line[k]),
    ensures
        step_spec(line, index) == ActionView::Print(Seq::empty()),
{
    lemma_trim_start_blank(line);
    assert(trim(line).len() == 0);
}

proof fn lemma_trim_keeps(s: Seq<char>)
    requires
        s.len() > 0,
        !is_ws(s[0]),
        !is_ws(s.last()),
    ensures
        trim(s) == s,
{
}

proof fn lemma_echo_word()
    ensures
        "echo "@ == "echo"@.push(' '),
        "echo"@.len() == 4,
        !"echo"@.contains(' '),
        !is_ws("echo"@[0]),
        !is_ws("echo"@.last()),
        "echo"@ != "exit"@,
{
    reveal_strlit("echo ");
    reveal_strlit("echo");
    reveal_strlit("exit");
    assert("echo "@ =~= "echo"@.push(' '));
    assert("echo"@[3] != "exit"@[3]);
}

/// `echo` prints its text as given, less trailing whitespace: the pieces
/// that single spaces separate are joined back with single spaces.
pub proof fn lemma_echo_prints_text(s: Seq<char>, index: ExecutableIndex)
    ensures
        step_spec("echo "@ + s, index) == ActionView::Print(trim_end(s)),
{
    lemma_echo_word();
    let w = "echo"@;
    let line = "echo "@ + s;
    let u = trim_end(s);
    assert(line[0] == w[0]);
    assert(trim_start(line) == line);
    lemma_trim_end_concat("echo "@, s);
    lemma_split_on_without_sep(w, ' ');
    lemma_trim_end_last(s);
    if u.len() > 0 {
        assert(!is_ws(u.last()));
        assert(trim(line) == "echo "@ + u);
        lemma_split_on_concat(w, u, ' ');
        assert(w.push(' ') + u == trim(line));
        assert(tokens(line) == seq![w] + split_on(u, ' '));
        assert(tokens(line)[0] == w);
        assert(tokens(line).skip(1) =~= split_on(u, ' '));
        lemma_join_split(u, ' ');
    } else {
        reveal_strlit("echo ");
        assert(!is_ws("echo "@.drop_last().last()));
        assert(trim_end("echo "@) == trim_end("echo "@.drop_last()));
        assert("echo "@.drop_last() =~= w);
        assert(trim(line) == w);
        assert(tokens(line) == seq![w]);
        assert(tokens(line).skip(1) =~= Seq::<Seq<char>>::empty());
        assert(u =~= Seq::<char>::empty());
    }
    assert(join_with(tokens(line).skip(1), ' ') == u);
    assert(tokens(line)[0] == "echo"@);
    assert(parse_spec(line, index) == Ok::<CommandView, ParseErrorView>(
        CommandView::Echo(join_with(tokens(line).skip(1), ' ')),
    ));
}

/// The decimal digit for `d`, which lies in `0..10`.
pub open spec fn digit_char(d: int) -> char {
    if d == 0 {
        '0'
    } else if d == 1 {
        '1'
    } else if d == 2 {
        '2'
    } else if d == 3 {
        '3'
    } else if d == 4 {
        '4'
    } else if d == 5 {
        '5'
    } else if d == 6 {
        '6'
    } else if d == 7 {
        '7'
    } else if d == 8 {
        '8'
    } else {
        '9'
    }
}

/// The shortest decimal digits that write `m`.
pub open spec fn decimal_digits(m: nat) -> Seq<char>
    decreases m,
{
    if m < 10 {
        seq![digit_char(m as int)]
    } else {
        decimal_digits(m / 10).push(digit_char((m % 10) as int))
    }
}

/// How `n` is written in decimal: a `-` for a negative number, then its digits.
pub open spec fn decimal(n: int) -> Seq<char> {
    if n < 0 {
        seq!['-'] + decimal_digits((-n) as nat)
    } else {
        decimal_digits(n as nat)
    }
}

proof fn lemma_digit_char(d: int)
    requires
        0 <= d < 10,
    ensures
        is_digit(digit_char(d)),
        digit_char(d) as u32 - '0' as u32 == d,
{
}

proof fn lemma_decimal_digits(m: nat)
    ensures
        decimal_digits(m).len() > 0,
        all_digits(decimal_digits(m)),
        digits_value(decimal_digits(m)) == m,
    decreases m,
{
    let s = decimal_digits(m);
    if m < 10 {
        lemma_digit_char(m as int);
        assert(s.drop_last() =~= Seq::<char>::empty());
        assert(s.last() == digit_char(m as int));
        assert(digits_value(s) == digits_value(s.drop_last()) * 10 + (s.last() as u32 - '0' as u32));
    } else {
        lemma_digit_char((m % 10) as int);
        assert(m == (m / 10) * 10 + m % 10);
        lemma_decimal_digits(m / 10);
        assert(s.drop_last() =~= decimal_digits(m / 10));
        assert(s.last() == digit_char((m % 10) as int));
        assert(digits_value(s) == digits_value(s.drop_last()) * 10 + (s.last() as u32 - '0' as u32));
        assert forall|k: int| 0 <= k < s.len() implies is_digit(#[trigger] s[k]) by {
            if k < s.len() - 1 {
                assert(s[k] == decimal_digits(m / 10)[k]);
            }
        }
    }
}

proof fn lemma_decimal(n: int)
    ensures
        parse_int(decimal(n)) == Some(n),
        decimal(n).len() > 0,
        !decimal(n).contains(' '),
        !is_ws(decimal(n).last()),
{
    let m: nat = if n < 0 {
        (-n) as nat
    } else {
        n as nat
    };
    let ds = decimal_digits(m);
    lemma_decimal_digits(m);
    assert(is_digit(ds[0]));
    assert(is_digit(ds[ds.len() - 1]));
    if n < 0 {
        assert(decimal(n).drop_first() =~= ds);
        assert(decimal(n).last() == ds.last());
        assert forall|k: int| 0 <= k < decimal(n).len() implies decimal(n)[k] != ' ' by {
            if k > 0 {
                assert(decimal(n)[k] == ds[k - 1]);
            }
        }
    } else {
        assert forall|k: int| 0 <= k < decimal(n).len() implies decimal(n)[k] != ' ' by {
            assert(is_digit(ds[k]));
        }
    }
}

proof fn lemma_exit_word()
    ensures
        "exit "@ == "exit"@.push(' '),
        "exit"@.len() == 4,
        !"exit"@.contains(' '),
        !is_ws("exit"@[0]),
{
    reveal_strlit("exit ");
    reveal_strlit("exit");
    assert("exit "@ =~= "exit"@.push(' '));
}

/// The tokens of a word, a space and a text that ends in no whitespace.
proof fn lemma_tokens_after_word(w: Seq<char>, t: Seq<char>)
    requires
        w.len() > 0,
        !w.contains(' '),
        !is_ws(w[0]),
        t.len() > 0,
        !is_ws(t.last()),
    ensures
        tokens(w.push(' ') + t) == seq![w] + split_on(t, ' '),
{
    let line = w.push(' ') + t;
    assert(line[0] == w[0]);
    assert(line.last() == t.last());
    lemma_trim_keeps(line);
    lemma_split_on_concat(w, t, ' ');
    lemma_split_on_without_sep(w, ' ');
}

/// `exit n` ends the process with status `n`.
pub proof fn lemma_exit_with_code(n: i32, index: ExecutableIndex)
    ensures
        step_spec("exit "@ + decimal(n as int), index) == ActionView::Terminate(n),
{
    lemma_exit_word();
    lemma_decimal(n as int);
    let d = decimal(n as int);
    lemma_split_on_without_sep(d, ' ');
    lemma_tokens_after_word("exit"@, d);
    let ts = tokens("exit "@ + d);
    assert(ts =~= seq!["exit"@, d]);
    assert(parse_i32(d) == Some(n));
}

/// `exit` alone ends the process with status 0.
pub proof fn lemma_exit_alone(index: ExecutableIndex)
    ensures
        step_spec("exit"@, index) == ActionView::Terminate(0),
{
    reveal_strlit("exit");
    lemma_exit_word();
    let w = "exit"@;
    assert(!is_ws(w.last()));
    lemma_trim_keeps(w);
    lemma_split_on_without_sep(w, ' ');
}

/// `exit n` followed by one more token is a parse error, and the
/// interpreter goes on.
pub proof fn lemma_exit_extra_token(n: i32, extra: Seq<char>, index: ExecutableIndex)
    requires
        extra.len() > 0,
        !is_ws(extra.last()),
    ensures
        step_spec("exit "@ + decimal(n as int) + " "@ + extra, index) == ActionView::Print(
            error_message(ParseErrorView::MalformedArgument("exit"@)),
        ),
{
    lemma_exit_word();
    reveal_strlit(" ");
    lemma_decimal(n as int);
    let d = decimal(n as int);
    let t = d.push(' ') + extra;
    assert("exit "@ + d + " "@ + extra =~= "exit"@.push(' ') + t);
    assert(t.last() == extra.last());
    lemma_tokens_after_word("exit"@, t);
    lemma_split_on_concat(d, extra, ' ');
    lemma_split_on_without_sep(d, ' ');
    lemma_split_on_nonempty(extra, ' ');
    let ts = tokens("exit"@.push(' ') + t);
    assert(ts.len() > 2);
    assert(ts[0] == "exit"@);
    assert(ts[1] == d);
}

/// `exit` followed by a token that is no `i32` in decimal is a parse error,
/// and the interpreter goes on.
pub proof fn lemma_exit_bad_code(s: Seq<char>, index: ExecutableIndex)
    requires
        s.len() > 0,
        !s.contains(' '),
        !is_ws(s.last()),
        parse_i32(s) is None,
    ensures
        step_spec("exit "@ + s, index) == ActionView::Print(
            error_message(ParseErrorView::MalformedArgument("exit"@)),
        ),
{
    lemma_exit_word();
    lemma_tokens_after_word("exit"@, s);
    lemma_split_on_without_sep(s, ' ');
    let ts = tokens("exit "@ + s);
    assert(ts =~= seq!["exit"@, s]);
}

/// A name that is neither a builtin nor in the index is reported as not
/// found; the index, which the interpreter only reads, stays as it was.
pub proof fn lemma_unknown_command(name: Seq<char>, index: ExecutableIndex)
    requires
        name.len() > 0,
        !name.contains(' '),
        !is_ws(name[0]),
        !is_ws(name.last()),
        !is_builtin(name),
        index.resolve(name) is None,
    ensures
        step_spec(name, index) == ActionView::Print(name + ": command not found"@),
{
    lemma_trim_keeps(name);
    lemma_split_on_without_sep(name, ' ');
    assert(tokens(name) =~= seq![name]);
}

} // verus!
