//! Writing a tokenized line back as text, and what reading that text gives.

use vstd::prelude::*;
use vstd::string::StringExecFns;
use crate::parse::{tokenize, LineContent, LineSpec, Token};
use crate::text::{
    after_first, before_first, find_char, has_char, indentation, indentation_string, is_trimmed,
    leading_spaces, lemma_clean_start, lemma_find_char_is, lemma_find_char_props, lemma_indented,
    lemma_skip_spaces_is, lemma_skip_whitespace_is, lemma_trim_is_trimmed,
    lemma_trim_of_clean_prefix, lemma_trim_padded, lemma_trim_start_clean, starts_clean, trim,
    trim_start,
};

verus! {

/// The text that a token is written as.
pub open spec fn token_text(token: Token) -> Seq<char> {
    match token {
        Token::PlaceHolder => "#"@,
        Token::Atom(text) => text,
        Token::Comment(text) => "#"@ + text,
        Token::Link(name, value) => name + " = "@ + value,
        Token::Domain(name) => "+ "@ + name,
        Token::Reference(name, value) => "+ "@ + name + " > "@ + value,
    }
}

/// The text that a tokenized line is written as: two spaces for each indent
/// level, then the token.
pub open spec fn line_text(line: LineSpec) -> Seq<char> {
    indentation(line.indent) + token_text(line.token)
}

impl LineContent {
    /// The line written out as text.
    pub fn to_string(&self) -> (s: String)
        ensures
            s@ == line_text(self@),
    {
        let mut s = indentation_string(self.indent());
        let mut body = String::new();
        match self {
            LineContent::PlaceHolder(_) => {
                body = String::from_str("#");
            },
            LineContent::Atom(text, _) => {
                body = text.clone();
            },
            LineContent::Comment(text, _) => {
                body = String::from_str("#");
                body.append(text.as_str());
            },
            LineContent::Link(name, value, _) => {
                body = name.clone();
                body.append(" = ");
                body.append(value.as_str());
            },
            LineContent::Domain(name, _) => {
                body = String::from_str("+ ");
                body.append(name.as_str());
            },
            LineContent::Reference(name, value, _) => {
                body = String::from_str("+ ");
                body.append(name.as_str());
                body.append(" > ");
                body.append(value.as_str());
            },
        }
        s.append(body.as_str());
        s
    }
}

/// The text of a domain starts with its `+`, and what follows the `+` trims
/// to the name.
pub proof fn lemma_domain_text(name: Seq<char>)
    requires
        is_trimmed(name),
    ensures
        ({
            let u = "+ "@ + name;
            &&& u.len() > 1
            &&& u[0] == '+'
            &&& leading_spaces(u) == 0
            &&& trim_start(u) == u
            &&& trim(u.skip(1)) == name
        }),
{
    reveal_strlit("+ ");
    let u = "+ "@ + name;
    assert(u.skip(1) =~= seq![' '] + name + Seq::<char>::empty());
    lemma_trim_padded(seq![' '], name, Seq::empty());
}

/// The text of a comment that is not empty starts with `#` and the first
/// character of the comment, and what follows the `#` trims to the comment.
pub proof fn lemma_comment_text(text: Seq<char>)
    requires
        is_trimmed(text),
        text.len() > 0,
    ensures
        ({
            let u = "#"@ + text;
            &&& u.len() > 1
            &&& u[0] == '#'
            &&& u[1] != ' '
            &&& leading_spaces(u) == 0
            &&& trim_start(u) == u
            &&& trim(u.skip(1)) == text
        }),
{
    reveal_strlit("#");
}

/// The text of a link, as written from a text `t` with `=` that does not
/// start with whitespace. Without its leading whitespace it starts as `t`
/// does, but for one space that may have gone or come behind its first
/// character; it splits at the first `=` into the same name and value.
pub proof fn lemma_link_text(t: Seq<char>)
    requires
        starts_clean(t),
        has_char(t, '='),
    ensures
        ({
            let name = trim(before_first(t, '='));
            let value = trim(after_first(t, '='));
            let u = name + " = "@ + value;
            let w = trim_start(u);
            &&& leading_spaces(u) <= 1
            &&& w.len() > 1
            &&& w[0] == t[0]
            &&& w[1] == t[1] || w[1] == ' '
            &&& has_char(w, '=')
            &&& trim(before_first(w, '=')) == name
            &&& trim(after_first(w, '=')) == value
        }),
{
    reveal_strlit(" = ");
    let p = find_char(t, '=', 0);
    lemma_find_char_props(t, '=', 0);
    let name = trim(before_first(t, '='));
    let value = trim(after_first(t, '='));
    lemma_trim_is_trimmed(before_first(t, '='));
    lemma_trim_is_trimmed(after_first(t, '='));
    let u = name + " = "@ + value;
    let n = name.len() as int;
    if p == 0 {
        lemma_skip_spaces_is(u, 0, 1);
        lemma_skip_whitespace_is(u, 0, 1);
        let w = trim_start(u);
        assert(after_first(w, '=') =~= seq![' '] + value + Seq::<char>::empty());
        lemma_trim_padded(seq![' '], value, Seq::empty());
    } else {
        lemma_trim_of_clean_prefix(t, p);
        lemma_clean_start(u);
        lemma_find_char_is(u, '=', 0, n + 1);
        assert(before_first(u, '=') =~= Seq::<char>::empty() + name + seq![' ']);
        assert(after_first(u, '=') =~= seq![' '] + value + Seq::<char>::empty());
        lemma_trim_padded(Seq::empty(), name, seq![' ']);
        lemma_trim_padded(seq![' '], value, Seq::empty());
    }
}

/// The text of a reference, as written from a trimmed text `rest` with `>`:
/// it starts with its `+`, and what follows the `+` trims to a text that
/// splits at the first `>` into the same name and value.
pub proof fn lemma_reference_text(rest: Seq<char>)
    requires
        is_trimmed(rest),
        has_char(rest, '>'),
    ensures
        ({
            let name = trim(before_first(rest, '>'));
            let value = trim(after_first(rest, '>'));
            let u = "+ "@ + name + " > "@ + value;
            let again = trim(u.skip(1));
            &&& u.len() > 1
            &&& u[0] == '+'
            &&& leading_spaces(u) == 0
            &&& trim_start(u) == u
            &&& has_char(again, '>')
            &&& trim(before_first(again, '>')) == name
            &&& trim(after_first(again, '>')) == value
        }),
{
    reveal_strlit("+ ");
    reveal_strlit(" > ");
    let q = find_char(rest, '>', 0);
    lemma_find_char_props(rest, '>', 0);
    let name = trim(before_first(rest, '>'));
    let value = trim(after_first(rest, '>'));
    lemma_trim_is_trimmed(before_first(rest, '>'));
    lemma_trim_is_trimmed(after_first(rest, '>'));
    let u = "+ "@ + name + " > "@ + value;
    let pre = if name.len() > 0 {
        name + seq![' ']
    } else {
        Seq::<char>::empty()
    };
    let post = if value.len() > 0 {
        seq![' '] + value
    } else {
        Seq::<char>::empty()
    };
    let core = pre + seq!['>'] + post;
    let front = if name.len() > 0 {
        seq![' ']
    } else {
        seq![' ', ' ']
    };
    let back = if value.len() > 0 {
        Seq::<char>::empty()
    } else {
        seq![' ']
    };
    assert(u.skip(1) =~= front + core + back);
    lemma_trim_padded(front, core, back);
    if q > 0 {
        lemma_trim_of_clean_prefix(rest, q);
    }
    let m = pre.len() as int;
    lemma_find_char_is(core, '>', 0, m);
    assert(before_first(core, '>') =~= Seq::<char>::empty() + name + (if name.len() > 0 {
        seq![' ']
    } else {
        Seq::<char>::empty()
    }));
    assert(after_first(core, '>') =~= (if value.len() > 0 {
        seq![' ']
    } else {
        Seq::<char>::empty()
    }) + value + Seq::<char>::empty());
    lemma_trim_padded(
        Seq::empty(),
        name,
        if name.len() > 0 {
            seq![' ']
        } else {
            Seq::<char>::empty()
        },
    );
    lemma_trim_padded(
        if value.len() > 0 {
            seq![' ']
        } else {
            Seq::<char>::empty()
        },
        value,
        Seq::empty(),
    );
}

/// A line reads back as itself once it is written out, whatever it is but a
/// comment without text (which is written as a lone `#`, a place holder).
/// The text may differ from the one the line was read from in its spacing,
/// and in nothing that the tokenizer sees.
pub proof fn lemma_tokenize_round_trip(line: Seq<char>)
    requires
        !(tokenize(line).token matches Token::Comment(text) && text.len() == 0),
    ensures
        tokenize(line_text(tokenize(line))) == tokenize(line),
{
    let t = trim_start(line);
    let l = tokenize(line);
    let u = token_text(l.token);
    lemma_trim_start_clean(line);
    lemma_indented(l.indent, u);
    match l.token {
        Token::PlaceHolder => {
            reveal_strlit("#");
        },
        Token::Atom(_) => {
            lemma_clean_start(t);
        },
        Token::Comment(text) => {
            lemma_trim_is_trimmed(t.skip(1));
            lemma_comment_text(text);
        },
        Token::Domain(name) => {
            lemma_trim_is_trimmed(t.skip(1));
            lemma_domain_text(name);
        },
        Token::Link(_, _) => {
            lemma_find_char_props(t, '=', 0);
            lemma_link_text(t);
        },
        Token::Reference(_, _) => {
            lemma_trim_is_trimmed(t.skip(1));
            lemma_reference_text(trim(t.skip(1)));
        },
    }
}

} // verus!
