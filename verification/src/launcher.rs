//! Launching a user-typed command: the command line is split into a
//! program and its arguments here; the detached launch itself happens
//! outside the library.

use vstd::prelude::*;
use crate::services::{Invocation, InvocationSpec};
use crate::text::{
    chars_of, is_ws, lemma_fold_in_quotes, lemma_fold_no_quotes, lemma_fold_tokens,
    lemma_split_ws_trim, lemma_trim_identity, lemma_trim_keeps_absent, split_tokens, split_ws,
    string_of, tok_finish, tok_fold, trim, trim_chars, vv,
};

verus! {

/// The views of a sequence of strings.
pub open spec fn strings_view(v: Seq<String>) -> Seq<Seq<char>> {
    v.map_values(|s: String| s@)
}

/// The tokens of a command line: the line is trimmed, then split at
/// whitespace outside double quotes; double quotes are dropped. Not a
/// shell: no escapes, no nested quotes.
pub open spec fn tokenize_spec(s: Seq<char>) -> Seq<Seq<char>> {
    tok_finish(tok_fold(trim(s), true))
}

/// Splits a command line into tokens; double quotes group a path holding
/// spaces into one token (`"C:\Program Files\App\app.exe" --flag`).
pub fn tokenize(input: &str) -> (r: Vec<String>)
    ensures
        strings_view(r@) == tokenize_spec(input@),
{
    let chars = chars_of(input);
    let t = trim_chars(chars.as_slice());
    let toks = split_tokens(t.as_slice(), true);
    let mut r: Vec<String> = Vec::new();
    let mut i: usize = 0;
    while i < toks.len()
        invariant
            i <= toks.len(),
            r.len() == i,
            forall|j: int| 0 <= j < i ==> (#[trigger] r@[j])@ == toks@[j]@,
        decreases toks.len() - i,
    {
        r.push(string_of(toks[i].as_slice()));
        i += 1;
    }
    assert(strings_view(r@) =~= vv(toks@));
    r
}

/// The message when no command was typed.
pub open spec fn no_command_message() -> Seq<char> {
    "Aucune commande saisie."@
}

/// What a command line launches: its first token as the program and the
/// other tokens as arguments; a line with no token is refused.
pub open spec fn task_spec(line: Seq<char>) -> Result<InvocationSpec, Seq<char>> {
    let t = tokenize_spec(line);
    if t.len() == 0 {
        Err(no_command_message())
    } else {
        Ok(InvocationSpec { program: t[0], args: t.drop_first() })
    }
}

/// What a command line launches, or why nothing is.
pub fn task_invocation(command_line: &str) -> (r: Result<Invocation, String>)
    ensures
        match r {
            Ok(inv) => task_spec(command_line@) == Ok::<InvocationSpec, Seq<char>>(inv@),
            Err(e) => task_spec(command_line@) == Err::<InvocationSpec, Seq<char>>(e@),
        },
{
    let mut tokens = tokenize(command_line);
    if tokens.len() == 0 {
        return Err(String::from_str("Aucune commande saisie."));
    }
    let ghost all = tokens@;
    let program = tokens.remove(0);
    assert(strings_view(tokens@) =~= tokenize_spec(command_line@).drop_first());
    assert(program@ == tokenize_spec(command_line@)[0]);
    Ok(Invocation { program, args: tokens })
}

/// The message when a program could not be launched.
pub open spec fn launch_failure_spec(program: Seq<char>, error: Seq<char>) -> Seq<char> {
    "Impossible de lancer \""@ + program + "\" : "@ + error
}

/// The message when `program` could not be launched, with the error's text.
pub fn launch_failure(program: &str, error: &str) -> (r: String)
    ensures
        r@ == launch_failure_spec(program@, error@),
{
    let mut m = String::from_str("Impossible de lancer \"");
    m.append(program);
    m.append("\" : ");
    m.append(error);
    m
}


/// Every token of a command line is non-empty and holds no double quote.
pub proof fn law_tokens_nonempty_unquoted(line: Seq<char>)
    ensures
        forall|i: int|
            0 <= i < tokenize_spec(line).len() ==> (#[trigger] tokenize_spec(line)[i]).len() > 0
                && !tokenize_spec(line)[i].contains('"'),
{
    lemma_fold_tokens(trim(line), true);
}

/// A command line without double quotes splits exactly at whitespace, as
/// `str::split_whitespace` does; no token then holds whitespace.
pub proof fn law_unquoted_line_splits_at_whitespace(line: Seq<char>)
    requires
        !line.contains('"'),
    ensures
        tokenize_spec(line) == split_ws(line),
        forall|i: int, j: int|
            0 <= i < tokenize_spec(line).len() && 0 <= j < tokenize_spec(line)[i].len() ==> !is_ws(
                #[trigger] tokenize_spec(line)[i][j],
            ),
{
    lemma_trim_keeps_absent(line, '"');
    lemma_fold_no_quotes(trim(line));
    lemma_split_ws_trim(line);
    lemma_fold_tokens(line, false);
}

/// A path in double quotes is one token, spaces and all, without its quotes.
pub proof fn law_quoted_path_is_one_token(path: Seq<char>)
    requires
        path.len() > 0,
        !path.contains('"'),
    ensures
        tokenize_spec(seq!['"'] + path + seq!['"']) == seq![path],
{
    let q = seq!['"'];
    let line = q + path + q;
    assert(line[0] == '"');
    assert(line.last() == '"');
    lemma_trim_identity(line);
    assert(q.drop_last() =~= Seq::<char>::empty());
    assert(tok_fold(q.drop_last(), true) == tok_fold(Seq::<char>::empty(), true));
    assert(q.last() == '"');
    assert(tok_fold(q, true) == (Seq::<Seq<char>>::empty(), Seq::<char>::empty(), true));
    lemma_fold_in_quotes(q, path);
    assert(Seq::<char>::empty() + path =~= path);
    assert(line.drop_last() =~= q + path);
}

/// The tokens of a command line, joined with nothing between them.
pub open spec fn concat_all(ts: Seq<Seq<char>>) -> Seq<char>
    decreases ts.len(),
{
    if ts.len() == 0 {
        seq![]
    } else {
        concat_all(ts.drop_last()) + ts.last()
    }
}

/// The characters of `s` that end up in tokens, and whether the reader is
/// inside double quotes after `s`: every character but the double quotes
/// and the whitespace outside quotes.
pub open spec fn kept_chars(s: Seq<char>) -> (Seq<char>, bool)
    decreases s.len(),
{
    if s.len() == 0 {
        (seq![], false)
    } else {
        let (k, inq) = kept_chars(s.drop_last());
        let c = s.last();
        if c == '"' {
            (k, !inq)
        } else if is_ws(c) && !inq {
            (k, inq)
        } else {
            (k.push(c), inq)
        }
    }
}

proof fn lemma_concat_push(ts: Seq<Seq<char>>, t: Seq<char>)
    ensures
        concat_all(ts.push(t)) == concat_all(ts) + t,
{
    assert(ts.push(t).drop_last() =~= ts);
}

proof fn lemma_fold_kept(s: Seq<char>)
    ensures
        concat_all(tok_fold(s, true).0) + tok_fold(s, true).1 == kept_chars(s).0,
        tok_fold(s, true).2 == kept_chars(s).1,
    decreases s.len(),
{
    if s.len() > 0 {
        lemma_fold_kept(s.drop_last());
        let (done, cur, inq) = tok_fold(s.drop_last(), true);
        lemma_concat_push(done, cur);
        assert(concat_all(done) + cur.push(s.last()) =~= (concat_all(done) + cur).push(s.last()));
        assert(concat_all(done) + cur + Seq::<char>::empty() =~= concat_all(done) + cur);
        assert(concat_all(done) + Seq::<char>::empty() =~= concat_all(done));
    }
}

/// Joined, the tokens of a command line are its trimmed text less its
/// double quotes and the whitespace outside quotes: splitting loses nothing
/// else and reorders nothing.
pub proof fn law_tokens_concatenate(line: Seq<char>)
    ensures
        concat_all(tokenize_spec(line)) == kept_chars(trim(line)).0,
{
    let st = tok_fold(trim(line), true);
    lemma_fold_kept(trim(line));
    lemma_concat_push(st.0, st.1);
    if st.1.len() == 0 {
        assert(concat_all(st.0) + st.1 =~= concat_all(st.0));
    }
}

} // verus!
