//! Composing the text that the echo tool prints: each argument with its
//! escapes resolved, the arguments joined by a newline, and a final newline
//! unless it is left out.
use vstd::prelude::*;
use crate::text::{chars_of, push_char, push_str};

verus! {

/// The characters of `cs` with escapes resolved, `escape` telling whether a
/// backslash came just before: a doubled backslash gives one backslash, a
/// backslash and `n` give a newline, a backslash before anything else is
/// dropped, and so is a backslash at the end.
pub open spec fn unescape_from(cs: Seq<char>, escape: bool) -> Seq<char>
    decreases cs.len(),
{
    if cs.len() == 0 {
        Seq::empty()
    } else {
        let c = cs[0];
        let rest = cs.drop_first();
        if c == '\\' {
            if escape {
                seq!['\\'] + unescape_from(rest, false)
            } else {
                unescape_from(rest, true)
            }
        } else if c == 'n' && escape {
            seq!['\n'] + unescape_from(rest, false)
        } else {
            seq![c] + unescape_from(rest, false)
        }
    }
}

/// The text of an argument with its escapes resolved.
pub open spec fn unescaped(cs: Seq<char>) -> Seq<char> {
    unescape_from(cs, false)
}

/// The arguments, each with its escapes resolved, joined by `nl`.
pub open spec fn joined_args(args: Seq<Seq<char>>, nl: Seq<char>) -> Seq<char>
    decreases args.len(),
{
    if args.len() == 0 {
        Seq::empty()
    } else if args.len() == 1 {
        unescaped(args[0])
    } else {
        joined_args(args.drop_last(), nl) + nl + unescaped(args.last())
    }
}

/// What is printed: the joined arguments, then `nl` when `trailing`.
pub open spec fn echo_text(args: Seq<Seq<char>>, nl: Seq<char>, trailing: bool) -> Seq<char> {
    joined_args(args, nl) + if trailing {
        nl
    } else {
        Seq::empty()
    }
}

/// Resolves the escapes of `s` (`unescaped`).
pub fn unescape(s: &str) -> (r: String)
    ensures
        r@ == unescaped(s@),
{
    let cs = chars_of(s);
    let mut out = String::new();
    let mut escape = false;
    let mut i: usize = 0;
    assert(cs@.skip(0) =~= cs@);
    while i < cs.len()
        invariant
            i <= cs@.len(),
            out@ + unescape_from(cs@.skip(i as int), escape) == unescaped(s@),
            cs@ == s@,
        decreases cs@.len() - i,
    {
        let c = cs[i];
        let ghost rest = cs@.skip(i as int);
        assert(rest[0] == c);
        assert(rest.drop_first() =~= cs@.skip(i + 1));
        if c == '\\' {
            if escape {
                escape = false;
                push_char(&mut out, '\\');
            } else {
                escape = true;
            }
        } else if c == 'n' && escape {
            push_char(&mut out, '\n');
            escape = false;
        } else {
            push_char(&mut out, c);
            escape = false;
        }
        i = i + 1;
    }
    assert(cs@.skip(i as int) =~= Seq::<char>::empty());
    assert(out@ + Seq::<char>::empty() =~= out@);
    out
}

/// The newline to print: Windows' when asked for, else Posix' when asked
/// for, else the platform's own `line_ending`.
pub fn pick_newline<'a>(windows: bool, posix: bool, line_ending: &'a str) -> (r: &'a str)
    ensures
        windows ==> r@ == "\r\n"@,
        !windows && posix ==> r@ == "\n"@,
        !windows && !posix ==> r@ == line_ending@,
{
    if windows {
        "\r\n"
    } else if posix {
        "\n"
    } else {
        line_ending
    }
}

/// The text that the echo tool prints for the arguments `args` (`echo_text`).
pub fn echo(args: &Vec<String>, newline: &str, trailing: bool) -> (r: String)
    ensures
        r@ == echo_text(args@.map_values(|a: String| a@), newline@, trailing),
{
    let ghost av = args@.map_values(|a: String| a@);
    let mut z = String::new();
    let mut i: usize = 0;
    while i < args.len()
        invariant
            i <= args@.len(),
            av == args@.map_values(|a: String| a@),
            z@ == joined_args(av.take(i as int), newline@),
        decreases args@.len() - i,
    {
        assert(av.take(i + 1).drop_last() =~= av.take(i as int));
        assert(av.take(i + 1).last() == args@[i as int]@);
        if i > 0 {
            push_str(&mut z, newline);
        }
        let piece = unescape(args[i].as_str());
        push_str(&mut z, piece.as_str());
        proof {
            if i == 0 {
                assert(z@ == unescaped(av.take(1)[0]));
            }
        }
        i = i + 1;
    }
    assert(av.take(i as int) =~= av);
    if trailing {
        push_str(&mut z, newline);
    } else {
        assert(z@ + Seq::<char>::empty() =~= z@);
    }
    z
}


/// Law: an argument without a backslash is printed as it is.
pub proof fn law_plain_argument_unchanged(cs: Seq<char>)
    requires
        forall|i: int| 0 <= i < cs.len() ==> cs[i] != '\\',
    ensures
        unescaped(cs) == cs,
    decreases cs.len(),
{
    if cs.len() > 0 {
        let rest = cs.drop_first();
        assert forall|i: int| 0 <= i < rest.len() implies rest[i] != '\\' by {
            assert(rest[i] == cs[i + 1]);
        }
        law_plain_argument_unchanged(rest);
        assert(cs =~= seq![cs[0]] + rest);
    }
}

/// Law: a doubled backslash is a complete escape: it gives one backslash,
/// and what follows it is read afresh.
pub proof fn law_doubled_backslash(y: Seq<char>)
    ensures
        unescaped(seq!['\\', '\\'] + y) == seq!['\\'] + unescaped(y),
{
    let s = seq!['\\', '\\'] + y;
    let t = seq!['\\'] + y;
    assert(s.drop_first() =~= t);
    assert(t.drop_first() =~= y);
    assert(unescape_from(s, false) == unescape_from(t, true));
    assert(unescape_from(t, true) == seq!['\\'] + unescape_from(y, false));
}

/// Law: a backslash and `n` give a newline, and what follows is read
/// afresh.
pub proof fn law_escaped_newline(y: Seq<char>)
    ensures
        unescaped(seq!['\\', 'n'] + y) == seq!['\n'] + unescaped(y),
{
    let s = seq!['\\', 'n'] + y;
    let t = seq!['n'] + y;
    assert(s.drop_first() =~= t);
    assert(t.drop_first() =~= y);
    assert(unescape_from(s, false) == unescape_from(t, true));
    assert(unescape_from(t, true) == seq!['\n'] + unescape_from(y, false));
}

/// Law: a backslash before any other character is dropped and the
/// character kept, and what follows is read afresh.
pub proof fn law_other_escape(c: char, y: Seq<char>)
    requires
        c != '\\',
        c != 'n',
    ensures
        unescaped(seq!['\\', c] + y) == seq![c] + unescaped(y),
{
    let s = seq!['\\', c] + y;
    let t = seq![c] + y;
    assert(s.drop_first() =~= t);
    assert(t.drop_first() =~= y);
    assert(unescape_from(s, false) == unescape_from(t, true));
    assert(unescape_from(t, true) == seq![c] + unescape_from(y, false));
}

/// Law: a character other than a backslash, outside an escape, is kept as
/// it is.
pub proof fn law_plain_character(c: char, y: Seq<char>)
    requires
        c != '\\',
    ensures
        unescaped(seq![c] + y) == seq![c] + unescaped(y),
{
    assert((seq![c] + y).drop_first() =~= y);
}

/// Law: a backslash at the very end is dropped.
pub proof fn law_trailing_backslash()
    ensures
        unescaped(seq!['\\']) == Seq::<char>::empty(),
{
    assert(seq!['\\'].drop_first() =~= Seq::<char>::empty());
    assert(unescape_from(seq!['\\'], false) == unescape_from(Seq::<char>::empty(), true));
}

/// Law: the joined arguments hold each argument's text, in order, with the
/// newline between consecutive ones.
pub proof fn law_joined_args_step(args: Seq<Seq<char>>, a: Seq<char>, nl: Seq<char>)
    requires
        args.len() > 0,
    ensures
        joined_args(args.push(a), nl) == joined_args(args, nl) + nl + unescaped(a),
        joined_args(seq![a], nl) == unescaped(a),
{
    assert(args.push(a).drop_last() =~= args);
}

} // verus!
