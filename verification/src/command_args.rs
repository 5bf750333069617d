//! The text protocol: a message is `command:(arg,arg,...)`.
use vstd::prelude::*;
use crate::text::{
    chars_of, is_white_space, push_char, push_joined, push_str, join, law_trim_ignores_surrounding_space, lemma_split_concat, law_split_undoes_join, lemma_split_without_sep,
    split, split_chars, trim, trim_back, trim_bounds, trim_front, views,
};

verus! {

broadcast use vstd::string::group_string_axioms;

/// A message taken apart: its command, its arguments and, where it carries
/// one, the id of the dialogue it belongs to.
#[derive(Debug)]
pub struct MessageArgs {
    pub command: String,
    pub args: Vec<String>,
    pub dialogue_id: Option<u64>,
}

/// The contents of a message taken apart.
pub struct MessageArgsView {
    pub command: Seq<char>,
    pub args: Seq<Seq<char>>,
    pub dialogue_id: Option<u64>,
}

impl View for MessageArgs {
    type V = MessageArgsView;

    open spec fn view(&self) -> MessageArgsView {
        MessageArgsView {
            command: self.command@,
            args: views(self.args@),
            dialogue_id: self.dialogue_id,
        }
    }
}

/// The message with the given command and arguments:
/// `command:(arg,arg,...)`.
pub open spec fn render_message(command: Seq<char>, args: Seq<Seq<char>>) -> Seq<char> {
    command + seq![':', '('] + join(args, ',') + seq![')']
}

/// What reading a message gives. White space around the message is ignored;
/// the rest must hold exactly one `:`, with a nonempty command before it and
/// a parenthesised, comma-separated argument list after it. A message never
/// carries a dialogue id: it ends in `)`.
pub open spec fn spec_parse_message(input: Seq<char>) -> Option<MessageArgsView> {
    let t = trim(input);
    let parts = split(t, ':');
    if parts.len() != 2 || parts[0].len() == 0 {
        None
    } else {
        let a = parts[1];
        if a.len() > 0 && a[0] == '(' && a.last() == ')' {
            Some(
                MessageArgsView {
                    command: parts[0],
                    args: split(a.subrange(1, a.len() - 1), ','),
                    dialogue_id: None,
                },
            )
        } else {
            None
        }
    }
}

impl MessageArgs {
    /// Reads a message; `None` where it is not of the form
    /// `command:(arg,arg,...)`.
    pub fn parse_message(input: String) -> (r: Option<MessageArgs>)
        ensures
            match (r, spec_parse_message(input@)) {
                (Some(m), Some(v)) => m@ == v,
                (None, None) => true,
                _ => false,
            },
    {
        let v = chars_of(input.as_str());
        let (lo, hi) = trim_bounds(&v);
        let parts = split_chars(&v, lo, hi, ':');
        if parts.len() != 2 {
            return None;
        }
        let command = chars_of(parts[0].as_str());
        if command.len() == 0 {
            return None;
        }
        let a = chars_of(parts[1].as_str());
        assert(a@ == views(parts@)[1]);
        if a.len() == 0 || a[0] != '(' || a[a.len() - 1] != ')' {
            return None;
        }
        let args = split_chars(&a, 1, a.len() - 1, ',');
        let command_text = parts[0].clone();
        Some(MessageArgs { command: command_text, args, dialogue_id: None })
    }
}

/// The message with the given command and arguments.
pub fn render_message_text(command: &str, args: &Vec<String>) -> (m: String)
    ensures
        m@ == render_message(command@, views(args@)),
{
    let mut m = String::new();
    push_str(&mut m, command);
    push_char(&mut m, ':');
    push_char(&mut m, '(');
    push_joined(&mut m, args, ',');
    push_char(&mut m, ')');
    assert(m@ =~= render_message(command@, views(args@)));
    m
}

/// Joined pieces that avoid a character other than the separator avoid it too.
pub proof fn lemma_join_avoids(pieces: Seq<Seq<char>>, sep: char, c: char)
    requires
        c != sep,
        forall|i: int| 0 <= i < pieces.len() ==> !(#[trigger] pieces[i]).contains(c),
    ensures
        !join(pieces, sep).contains(c),
    decreases pieces.len(),
{
    if pieces.len() == 1 {
        assert(!pieces[0].contains(c));
    } else if pieces.len() > 1 {
        let init = pieces.drop_last();
        assert forall|i: int| 0 <= i < init.len() implies !(#[trigger] init[i]).contains(c) by {
            assert(init[i] == pieces[i]);
        }
        lemma_join_avoids(init, sep, c);
        let last = pieces[pieces.len() - 1];
        assert(!last.contains(c));
        let whole = join(init, sep) + seq![sep] + last;
        if whole.contains(c) {
            let i = choose|i: int| 0 <= i < whole.len() && whole[i] == c;
            let n = join(init, sep).len();
            if i < n {
                assert(join(init, sep)[i] == c);
            } else if i == n {
                assert(whole[i] == sep);
            } else {
                assert(last[i - n - 1] == c);
            }
        }
    }
}

/// White space around a message makes no difference to what it reads as.
pub proof fn law_parse_ignores_surrounding_space(a: Seq<char>, m: Seq<char>, b: Seq<char>)
    requires
        forall|i: int| 0 <= i < a.len() ==> is_white_space(#[trigger] a[i]),
        forall|i: int| 0 <= i < b.len() ==> is_white_space(#[trigger] b[i]),
    ensures
        spec_parse_message(a + m + b) == spec_parse_message(m),
{
    law_trim_ignores_surrounding_space(a, m, b);
}

/// Reading back a rendered message gives its command and arguments, as long
/// as the command is nonempty, starts with no white space and holds no `:`,
/// and there is at least one argument, none holding `:` or `,`.
pub proof fn law_parse_render(command: Seq<char>, args: Seq<Seq<char>>)
    requires
        command.len() > 0,
        !is_white_space(command[0]),
        !command.contains(':'),
        args.len() >= 1,
        forall|i: int|
            0 <= i < args.len() ==> !(#[trigger] args[i]).contains(':') && !args[i].contains(','),
    ensures
        spec_parse_message(render_message(command, args)) == Some(
            MessageArgsView { command, args, dialogue_id: None },
        ),
{
    let m = render_message(command, args);
    let body = join(args, ',');
    let tail = seq!['('] + body + seq![')'];
    assert(m =~= command + seq![':'] + tail);
    assert(m.len() > 0 && m[0] == command[0]);
    assert(trim_front(m) == m);
    assert(m.last() == ')');
    assert(trim_back(m) == m);
    lemma_join_avoids(args, ',', ':');
    assert(!tail.contains(':')) by {
        if tail.contains(':') {
            let i = choose|i: int| 0 <= i < tail.len() && tail[i] == ':';
            assert(body[i - 1] == ':');
        }
    }
    lemma_split_concat(command, tail, ':');
    lemma_split_without_sep(command, ':');
    lemma_split_without_sep(tail, ':');
    assert(split(m, ':') =~= seq![command, tail]);
    assert(tail.subrange(1, tail.len() - 1) =~= body);
    law_split_undoes_join(args, ',');
}

} // verus!
