//! Removing the tool itself: reading the user's answer and taking the
//! installer's line out of shell start-up files.

use vstd::prelude::*;
use crate::dependencies::scripts::{lemma_pieces_nonempty, pieces, rows, split};
use crate::engine::text::{
    chars_of, joined, lowercase, lowercased, same_text, string_of, trim, trimmed,
};

verus! {

/// The answer says yes: it is `y` or `yes`, in any letter case and with any
/// white space around it.
pub open spec fn says_yes(answer: Seq<char>) -> bool {
    lowercased(trimmed(answer)) == "y"@ || lowercased(trimmed(answer)) == "yes"@
}

/// Decides from the lower-cased answer whether it says yes.
pub fn yes_when_lowered(lowered: &str) -> (r: bool)
    ensures
        r == (lowered@ == "y"@ || lowered@ == "yes"@),
{
    same_text(lowered, "y") || same_text(lowered, "yes")
}

/// Tests whether the user's answer to a yes-or-no question says yes.
pub fn is_yes(answer: &str) -> (r: bool)
    ensures
        r == says_yes(answer@),
{
    let core = string_of(&trim(&chars_of(answer)));
    yes_when_lowered(lowercase(core.as_str()).as_str())
}

/// A line as it stood before a line feed: without the carriage return in
/// front of the line feed, if there was one.
pub open spec fn before_line_feed(piece: Seq<char>) -> Seq<char> {
    if piece.len() > 0 && piece.last() == '\r' {
        piece.drop_last()
    } else {
        piece
    }
}

/// The line is one that the installer added to put the tool on the search path.
pub open spec fn is_installer_line(line: Seq<char>) -> bool {
    trimmed(line) == "export PATH=\"$HOME/.local/bin:$PATH\""@ || trimmed(line)
        == "export PATH=\"$HOME/.local/bin:$PATH\" # added by woven installer"@
}

/// The first `n` of the pieces between line feeds, each as a line of its
/// own and without the installer's lines.
pub open spec fn kept_lines(parts: Seq<Seq<char>>, n: int) -> Seq<char>
    decreases n,
{
    if n <= 0 {
        Seq::empty()
    } else {
        let head = kept_lines(parts, n - 1);
        let line = before_line_feed(parts[n - 1]);
        if is_installer_line(line) {
            head
        } else {
            head + line + seq!['\n']
        }
    }
}

/// A start-up file without the installer's lines: every other line, each
/// ended by a line feed.
pub open spec fn cleaned(content: Seq<char>) -> Seq<char> {
    let parts = pieces(content, '\n');
    let head = kept_lines(parts, parts.len() - 1);
    let rest = parts.last();
    if rest.len() == 0 || is_installer_line(rest) {
        head
    } else {
        head + rest + seq!['\n']
    }
}

/// Tests whether `line` is one of the installer's lines.
fn installer_line(line: &Vec<char>) -> (r: bool)
    ensures
        r == is_installer_line(line@),
{
    let core = string_of(&trim(line));
    same_text(core.as_str(), "export PATH=\"$HOME/.local/bin:$PATH\"") || same_text(
        core.as_str(),
        "export PATH=\"$HOME/.local/bin:$PATH\" # added by woven installer",
    )
}

/// Takes the installer's lines out of the text of a start-up file. Says
/// nothing where that leaves the text as it was.
pub fn clean_rc_content(content: &str) -> (r: Option<String>)
    ensures
        match r {
            Some(text) => text@ == cleaned(content@) && text@ != content@,
            None => cleaned(content@) == content@,
        },
{
    let parts = split(&chars_of(content), '\n');
    proof {
        lemma_pieces_nonempty(content@, '\n');
    }
    let ghost all = rows(parts@);
    let feed: Vec<char> = vec!['\n'];
    let mut out: Vec<char> = Vec::new();
    let mut i: usize = 0;
    while i + 1 < parts.len()
        invariant
            i + 1 <= parts.len(),
            all == rows(parts@),
            all == pieces(content@, '\n'),
            feed@ == seq!['\n'],
            out@ == kept_lines(all, i as int),
        decreases parts.len() - i,
    {
        let piece = &parts[i];
        assert(all[i as int] == piece@);
        let mut line: Vec<char> = Vec::new();
        let mut end: usize = piece.len();
        if end > 0 && piece[end - 1] == '\r' {
            end -= 1;
        }
        let mut k: usize = 0;
        while k < end
            invariant
                k <= end <= piece.len(),
                line@ == piece@.take(k as int),
            decreases end - k,
        {
            line.push(piece[k]);
            assert(piece@.take(k + 1) == piece@.take(k as int).push(piece@[k as int]));
            k += 1;
        }
        assert(line@ == before_line_feed(piece@)) by {
            if end == piece.len() {
                assert(piece@.take(end as int) == piece@);
            } else {
                assert(piece@.take(end as int) == piece@.drop_last());
            }
        }
        if !installer_line(&line) {
            out = joined(&joined(&out, &line), &feed);
        }
        i += 1;
    }
    let rest = &parts[parts.len() - 1];
    assert(all.last() == rest@);
    if rest.len() > 0 && !installer_line(rest) {
        out = joined(&joined(&out, rest), &feed);
    }
    let text = string_of(&out);
    if same_text(text.as_str(), content) {
        None
    } else {
        Some(text)
    }
}

} // verus!
