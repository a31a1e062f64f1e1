//! The outcome of a game.
use vstd::prelude::*;
use vstd::string::StringExecFns;

verus! {

/// The players who finished, fastest first, and the place of the local player among them.
#[derive(Debug, Clone)]
pub struct Ranking {
    pub spot: usize,
    pub names: Vec<String>,
}

/// The mark shown beside the player in place `i` of a ranking: a medal for the first
/// three, and a pile of poo for the others.
pub open spec fn place_mark(i: int) -> Seq<char> {
    if i == 0 {
        "🥇"@
    } else if i == 1 {
        "🥈"@
    } else if i == 2 {
        "🥉"@
    } else {
        "💩"@
    }
}

impl Ranking {
    /// One line per ranked player, in order: the mark of the place, a space, the name.
    pub fn podium_lines(&self) -> (lines: Vec<String>)
        ensures
            lines@.len() == self.names@.len(),
            forall|i: int| 0 <= i < lines@.len() ==> #[trigger] lines@[i]@ == place_mark(i) + " "@ + self.names@[i]@,
    {
        let mut lines: Vec<String> = Vec::new();
        let mut i: usize = 0;
        while i < self.names.len()
            invariant
                i <= self.names@.len(),
                lines@.len() == i,
                forall|k: int| 0 <= k < i ==> #[trigger] lines@[k]@ == place_mark(k) + " "@ + self.names@[k]@,
            decreases self.names@.len() - i,
        {
            let mark = if i == 0 {
                String::from_str("🥇")
            } else if i == 1 {
                String::from_str("🥈")
            } else if i == 2 {
                String::from_str("🥉")
            } else {
                String::from_str("💩")
            };
            let line = mark.concat(" ").concat(self.names[i].as_str());
            lines.push(line);
            i = i + 1;
        }
        lines
    }
}

} // verus!
