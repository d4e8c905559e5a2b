//! What a shell and a script read of arguments that were quoted for them.

use vstd::prelude::*;

use crate::gui::backend::{
    administrator_script_text, shell_quoted, single_quoted, wants_quotes, CliCommandView,
};
use crate::text::{joined, replaced};

verus! {

proof fn replaced_in_parts(a: Seq<char>, b: Seq<char>, c: char, by: Seq<char>)
    ensures
        replaced(a + b, c, by) == replaced(a, c, by) + replaced(b, c, by),
    decreases b.len(),
{
    if b.len() == 0 {
        assert(a + b =~= a);
        assert(replaced(a, c, by) + replaced(b, c, by) =~= replaced(a, c, by));
    } else {
        replaced_in_parts(a, b.drop_last(), c, by);
        assert((a + b).drop_last() =~= a + b.drop_last());
        let last = if b.last() == c {
            by
        } else {
            seq![b.last()]
        };
        let x = replaced(a, c, by);
        let y = replaced(b.drop_last(), c, by);
        assert(x + (y + last) =~= (x + y) + last);
    }
}

proof fn replaced_from_the_front(s: Seq<char>, c: char, by: Seq<char>)
    requires
        s.len() > 0,
    ensures
        s[0] == c ==> replaced(s, c, by) == by + replaced(s.skip(1), c, by),
        s[0] != c ==> replaced(s, c, by) == seq![s[0]] + replaced(s.skip(1), c, by),
{
    let one = seq![s[0]];
    assert(s =~= one + s.skip(1));
    replaced_in_parts(one, s.skip(1), c, by);
    assert(one.drop_last() =~= Seq::<char>::empty());
    reveal_with_fuel(replaced, 2);
    assert(Seq::<char>::empty() + by =~= by);
    assert(Seq::<char>::empty() + one =~= one);
}

// ---------------------------------------------------------------------------
// Quotation marks
// ---------------------------------------------------------------------------

/// A text without the backslashes that stand before its quotation marks.
pub open spec fn unescaped(s: Seq<char>) -> Seq<char>
    decreases s.len(),
{
    if s.len() == 0 {
        Seq::empty()
    } else if s.len() >= 2 && s[0] == '\\' && s[1] == '"' {
        seq!['"'] + unescaped(s.skip(2))
    } else {
        seq![s[0]] + unescaped(s.skip(1))
    }
}

proof fn escapes_are_undone(arg: Seq<char>)
    ensures
        unescaped(replaced(arg, '"', "\\\""@)) == arg,
    decreases arg.len(),
{
    reveal_strlit("\\\"");
    let by = "\\\""@;
    assert(by.len() == 2 && by[0] == '\\' && by[1] == '"');
    let s = replaced(arg, '"', by);
    if arg.len() > 0 {
        let rest = arg.skip(1);
        let r = replaced(rest, '"', by);
        replaced_from_the_front(arg, '"', by);
        escapes_are_undone(rest);
        assert(arg =~= seq![arg[0]] + rest);
        if arg[0] == '"' {
            assert(s == by + r);
            assert(s[0] == '\\' && s[1] == '"');
            assert(s.skip(2) =~= r);
        } else {
            assert(s == seq![arg[0]] + r);
            if rest.len() > 0 {
                replaced_from_the_front(rest, '"', by);
                assert(r[0] != '"');
                assert(s[1] == r[0]);
            } else {
                assert(r.len() == 0);
            }
            assert(s.skip(1) =~= r);
        }
    }
}

/// What stands between the quotation marks of a quoted argument is the argument,
/// with a backslash before each of its own quotation marks.
pub proof fn quoted_arguments_read_back(arg: Seq<char>)
    ensures
        ({
            let q = shell_quoted(arg);
            q != arg ==> q.len() >= 2 && q[0] == '"' && q.last() == '"' && unescaped(
                q.subrange(1, q.len() - 1),
            ) == arg
        }),
{
    reveal_strlit("\"");
    escapes_are_undone(arg);
    if wants_quotes(arg) {
        let q = shell_quoted(arg);
        assert(q.subrange(1, q.len() - 1) =~= replaced(arg, '"', "\\\""@));
    }
}

// ---------------------------------------------------------------------------
// The shell
// ---------------------------------------------------------------------------

/// The word that a shell reads of quoted pieces: between single quotation marks
/// every character stands for itself, and outside of them the one behind a
/// backslash does. Nothing else may stand outside.
pub open spec fn shell_word(s: Seq<char>, inside: bool) -> Option<Seq<char>>
    decreases s.len(),
{
    if s.len() == 0 {
        if inside {
            None
        } else {
            Some(Seq::empty())
        }
    } else if s[0] == '\'' {
        shell_word(s.skip(1), !inside)
    } else if inside {
        match shell_word(s.skip(1), true) {
            Some(w) => Some(seq![s[0]] + w),
            None => None,
        }
    } else if s[0] == '\\' && s.len() >= 2 {
        match shell_word(s.skip(2), false) {
            Some(w) => Some(seq![s[1]] + w),
            None => None,
        }
    } else {
        None
    }
}

proof fn spliced_quotes_are_read(arg: Seq<char>)
    ensures
        shell_word(replaced(arg, '\'', "'\\''"@) + "'"@, true) == Some(arg),
    decreases arg.len(),
{
    reveal_strlit("'\\''");
    reveal_strlit("'");
    let by = "'\\''"@;
    let end = "'"@;
    assert(by.len() == 4 && by[0] == '\'' && by[1] == '\\' && by[2] == '\'' && by[3] == '\'');
    assert(end.len() == 1 && end[0] == '\'');
    let s = replaced(arg, '\'', by) + end;
    if arg.len() == 0 {
        assert(s =~= end);
        assert(s.skip(1).len() == 0);
        assert(shell_word(s.skip(1), false) == Some(Seq::<char>::empty()));
        assert(arg =~= Seq::<char>::empty());
    } else {
        let rest = arg.skip(1);
        let r = replaced(rest, '\'', by) + end;
        replaced_from_the_front(arg, '\'', by);
        spliced_quotes_are_read(rest);
        assert(arg =~= seq![arg[0]] + rest);
        if arg[0] == '\'' {
            assert(s =~= by + r);
            let s1 = s.skip(1);
            let s3 = s1.skip(2);
            assert(s1[0] == '\\' && s1[1] == '\'');
            assert(s3[0] == '\'');
            assert(s3.skip(1) =~= r);
            assert(shell_word(s3, false) == Some(rest));
            assert(shell_word(s1, false) == Some(seq!['\''] + rest));
        } else {
            assert(s =~= seq![arg[0]] + r);
            assert(s.skip(1) =~= r);
        }
    }
}

/// A shell reads an argument between single quotation marks as it is.
pub proof fn single_quotes_read_back(arg: Seq<char>)
    ensures
        shell_word(single_quoted(arg), false) == Some(arg),
{
    spliced_quotes_are_read(arg);
    reveal_strlit("'");
    let q = single_quoted(arg);
    let inner = replaced(arg, '\'', "'\\''"@);
    assert(q[0] == '\'');
    assert(q.skip(1) =~= inner + "'"@);
}

// ---------------------------------------------------------------------------
// The script
// ---------------------------------------------------------------------------

/// What a script's string stands for, read from behind its opening quotation mark
/// to its closing one, and what comes behind that.
pub open spec fn string_value(s: Seq<char>) -> Option<(Seq<char>, Seq<char>)>
    decreases s.len(),
{
    if s.len() == 0 {
        None
    } else if s[0] == '"' {
        Some((Seq::empty(), s.skip(1)))
    } else if s[0] == '\\' {
        if s.len() < 2 {
            None
        } else {
            match string_value(s.skip(2)) {
                Some(x) => Some((seq![s[1]] + x.0, x.1)),
                None => None,
            }
        }
    } else {
        match string_value(s.skip(1)) {
            Some(x) => Some((seq![s[0]] + x.0, x.1)),
            None => None,
        }
    }
}

spec fn in_string(line: Seq<char>) -> Seq<char> {
    replaced(replaced(line, '\\', "\\\\"@), '"', "\\\""@)
}

proof fn strings_are_read(line: Seq<char>, tail: Seq<char>)
    ensures
        string_value(in_string(line) + ("\""@ + tail)) == Some((line, tail)),
    decreases line.len(),
{
    reveal_strlit("\\\\");
    reveal_strlit("\\\"");
    reveal_strlit("\"");
    let two = "\\\\"@;
    let esc = "\\\""@;
    let end = "\""@ + tail;
    assert(two.len() == 2 && two[0] == '\\' && two[1] == '\\');
    assert(esc.len() == 2 && esc[0] == '\\' && esc[1] == '"');
    assert(end[0] == '"');
    let s = in_string(line) + end;
    if line.len() == 0 {
        assert(replaced(line, '\\', two).len() == 0);
        assert(in_string(line).len() == 0);
        assert(s =~= end);
        assert(s.skip(1) =~= tail);
        assert(line =~= Seq::<char>::empty());
    } else {
        let rest = line.skip(1);
        let r = in_string(rest) + end;
        let inner = replaced(rest, '\\', two);
        replaced_from_the_front(line, '\\', two);
        strings_are_read(rest, tail);
        assert(line =~= seq![line[0]] + rest);
        let img = if line[0] == '\\' {
            two
        } else {
            seq![line[0]]
        };
        assert(replaced(line, '\\', two) == img + inner);
        replaced_in_parts(img, inner, '"', esc);
        single_images(line[0]);
        let out = replaced(img, '"', esc);
        assert(s =~= out + r);
        if line[0] == '\\' || line[0] == '"' {
            assert(out.len() == 2 && out[0] == '\\' && out[1] == line[0]);
            assert(s.skip(2) =~= r);
        } else {
            assert(out =~= seq![line[0]]);
            assert(s.skip(1) =~= r);
        }
    }
}

proof fn single_images(c: char)
    ensures
        replaced("\\\\"@, '"', "\\\""@) == "\\\\"@,
        c == '"' ==> replaced(seq![c], '"', "\\\""@) == "\\\""@,
        c != '"' ==> replaced(seq![c], '"', "\\\""@) == seq![c],
{
    reveal_strlit("\\\\");
    let two = "\\\\"@;
    let esc = "\\\""@;
    let e = Seq::<char>::empty();
    replaced_from_the_front(two, '"', esc);
    replaced_from_the_front(two.skip(1), '"', esc);
    assert(two.skip(1).skip(1) =~= e);
    assert(seq![two[0]] + (seq![two.skip(1)[0]] + e) =~= two);
    replaced_from_the_front(seq![c], '"', esc);
    assert(seq![c].skip(1) =~= e);
    assert(esc + e =~= esc);
    assert(seq![c] + e =~= seq![c]);
}

/// The script that asks for administrator rights runs one line: the program and
/// its arguments, each between single quotation marks, a blank between them.
pub proof fn scripts_run_the_line(exe: Seq<char>, args: Seq<Seq<char>>, words: Seq<Seq<char>>)
    requires
        words.len() == args.len() + 1,
        words[0] == single_quoted(exe),
        forall|i: int| 0 <= i < args.len() ==> words[i + 1] == single_quoted(#[trigger] args[i]),
    ensures
        ({
            let t = administrator_script_text(exe, args);
            let head = "do shell script \""@;
            &&& t.take(head.len() as int) == head
            &&& string_value(t.skip(head.len() as int)) == Some(
                (joined(words, " "@), " with administrator privileges"@),
            )
        }),
{
    let t = administrator_script_text(exe, args);
    let head = "do shell script \""@;
    let all = (seq![exe] + args).map_values(|a: Seq<char>| single_quoted(a));
    assert forall|i: int| 0 <= i < words.len() implies words[i] == all[i] by {
        if i > 0 {
            assert(words[(i - 1) + 1] == single_quoted(args[i - 1]));
        }
    }
    assert(words =~= all);
    let line = joined(words, " "@);
    let tail = " with administrator privileges"@;
    strings_are_read(line, tail);
    script_tail();
    assert(t.take(head.len() as int) =~= head);
    assert(t.skip(head.len() as int) =~= in_string(line) + ("\""@ + tail));
}

proof fn script_tail()
    ensures
        "\" with administrator privileges"@ == "\""@ + " with administrator privileges"@,
{
    reveal_strlit("\" with administrator privileges");
    reveal_strlit("\"");
    reveal_strlit(" with administrator privileges");
    assert("\" with administrator privileges"@ =~= "\""@ + " with administrator privileges"@);
}

/// A command's label is its first argument, and its device is the one that its
/// arguments name.
pub proof fn commands_name_their_device(cmd: CliCommandView)
    ensures
        cmd.args().len() > 0,
        cmd.args()[0] == cmd.label(),
        cmd.device() matches Some(d) ==> cmd.args().len() >= 3 && cmd.args()[1] == "--device"@
            && cmd.args()[2] == d,
        cmd.device() is None ==> cmd is List || cmd is Image,
{
}

} // verus!
