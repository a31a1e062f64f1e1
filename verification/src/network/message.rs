//! Messages broadcast on the local network, and which of them a node takes in.
use vstd::prelude::*;

verus! {

/// Who sent a message: a name and a number drawn at random when the node starts.
#[derive(Debug, Clone)]
pub struct Identifier {
    pub name: String,
    pub id: u16,
}

/// A message: its sender and its payload.
#[derive(Debug, Clone)]
pub struct Message {
    pub from: Identifier,
    pub buffer: Vec<u8>,
}

impl Identifier {
    /// Both identifiers have the same name and number.
    pub fn same_as(&self, other: &Identifier) -> (b: bool)
        ensures
            b == (self.name@ == other.name@ && self.id == other.id),
    {
        self.id == other.id && self.name == other.name
    }
}

/// A node takes in a message sent by another node under a name it subscribed to.
pub open spec fn delivered(own: Identifier, subscriptions: Seq<Seq<char>>, m: Message) -> bool {
    &&& !(m.from.name@ == own.name@ && m.from.id == own.id)
    &&& subscriptions.contains(m.from.name@)
}

/// Whether the node `own`, subscribed to `subscriptions`, takes in `m`.
pub fn accepts(own: &Identifier, subscriptions: &Vec<String>, m: &Message) -> (b: bool)
    ensures
        b == delivered(*own, subscriptions@.map_values(|s: String| s@), *m),
{
    if m.from.same_as(own) {
        return false;
    }
    let ghost subs = subscriptions@.map_values(|s: String| s@);
    let mut i: usize = 0;
    while i < subscriptions.len()
        invariant
            subs == subscriptions@.map_values(|s: String| s@),
            i <= subscriptions@.len(),
            forall|k: int| 0 <= k < i ==> subs[k] != m.from.name@,
            !(m.from.name@ == own.name@ && m.from.id == own.id),
        decreases subscriptions@.len() - i,
    {
        if subscriptions[i] == m.from.name {
            assert(subs[i as int] == m.from.name@);
            assert(subs.contains(m.from.name@));
            return true;
        }
        i = i + 1;
    }
    false
}

} // verus!
