//! Commands typed into the host's chat box.
use vstd::prelude::*;

use crate::pattern::{split_tokens, tokens};

verus! {

/// What a chat message asks of the runtime.
#[derive(Clone, Debug, PartialEq, Eq)]
pub enum GameCommand {
    /// Not addressed to the runtime, or no command given.
    Ignored,
    /// `luaf reload`: reload the file-backed sandboxes.
    Reload,
    /// `luaf` followed by a command that does not exist; its characters.
    Unknown(Vec<char>),
}

/// The word that addresses the runtime.
pub open spec fn luaf_word() -> Seq<char> {
    seq!['l', 'u', 'a', 'f']
}

/// The command that reloads the file-backed sandboxes.
pub open spec fn reload_word() -> Seq<char> {
    seq!['r', 'e', 'l', 'o', 'a', 'd']
}

/// Whether the token `tok` is `word`.
fn is_word(tok: &Vec<char>, word: &Vec<char>) -> (r: bool)
    ensures
        r == (tok@ == word@),
{
    if tok.len() != word.len() {
        return false;
    }
    let mut i: usize = 0;
    while i < tok.len()
        invariant
            0 <= i <= tok@.len(),
            tok@.len() == word@.len(),
            forall|k: int| 0 <= k < i ==> tok@[k] == word@[k],
        decreases tok@.len() - i,
    {
        if tok[i] != word[i] {
            return false;
        }
        i = i + 1;
    }
    assert(tok@ =~= word@);
    true
}

/// Reads a chat message: its first word must be `luaf`, its second names the
/// command. Words are separated by any Unicode white space.
pub fn handle_command(input: &str) -> (r: GameCommand)
    ensures
        ({
            let toks = tokens(input@);
            if toks.len() < 2 || toks[0] != luaf_word() {
                r == GameCommand::Ignored
            } else if toks[1] == reload_word() {
                r == GameCommand::Reload
            } else {
                match r {
                    GameCommand::Unknown(w) => w@ == toks[1],
                    _ => false,
                }
            }
        }),
{
    let toks = split_tokens(input);
    let luaf = vec!['l', 'u', 'a', 'f'];
    let reload = vec!['r', 'e', 'l', 'o', 'a', 'd'];
    assert(luaf@ =~= luaf_word());
    assert(reload@ =~= reload_word());
    assert(toks@.map_values(|v: Vec<char>| v@).len() == toks@.len());
    if toks.len() < 2 {
        return GameCommand::Ignored;
    }
    assert(toks@.map_values(|v: Vec<char>| v@)[0] == toks@[0]@);
    assert(toks@.map_values(|v: Vec<char>| v@)[1] == toks@[1]@);
    if !is_word(&toks[0], &luaf) {
        return GameCommand::Ignored;
    }
    if is_word(&toks[1], &reload) {
        GameCommand::Reload
    } else {
        let w = toks[1].clone();
        GameCommand::Unknown(w)
    }
}

} // verus!
