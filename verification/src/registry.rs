//! The table of node types that the game has registered, with their command ids.
use vstd::prelude::*;
use crate::strmap::StrMap;
use crate::text::owned;

verus! {

/// The value that `exec` returns when the scenario has ended.
pub const YAMAMVA_END: i32 = -1;

/// Registration flag: the command does not wait for a result.
pub const YAMAMVA_PASS: i32 = 0;

/// Registration flag: the command waits for the game to write a result.
pub const YAMAMVA_BLOCKING: i32 = 1;

/// What a registered node type dispatches to.
#[derive(Debug, Clone, Copy)]
pub struct CommandEntry {
    pub command_id: i32,
    pub blocking: bool,
}

/// The registered node types.
#[derive(Debug, Clone)]
pub struct Registry {
    table: StrMap<CommandEntry>,
}

impl View for Registry {
    type V = Map<Seq<char>, CommandEntry>;

    closed spec fn view(&self) -> Map<Seq<char>, CommandEntry> {
        self.table@
    }
}

impl Registry {
    /// An empty registry.
    pub fn new() -> (r: Self)
        ensures
            r@ == Map::<Seq<char>, CommandEntry>::empty(),
    {
        Registry { table: StrMap::new() }
    }

    /// Registers `node_type` with `command_id`; the command blocks exactly when
    /// `flags` is `YAMAMVA_BLOCKING`. A later registration of the same type replaces
    /// the earlier one.
    pub fn register(&mut self, node_type: &str, command_id: i32, flags: i32)
        ensures
            final(self)@ == old(self)@.insert(node_type@, entry_for(command_id, flags)),
    {
        self.table.insert(owned(node_type), CommandEntry { command_id, blocking: flags == YAMAMVA_BLOCKING });
    }

    /// The entry registered for `node_type`, if any.
    pub fn lookup(&self, node_type: &str) -> (r: Option<&CommandEntry>)
        ensures
            match r {
                Some(e) => self@.contains_key(node_type@) && *e == self@[node_type@],
                None => !self@.contains_key(node_type@),
            },
    {
        self.table.get(node_type)
    }
}

impl Default for Registry {
    /// An empty registry.
    fn default() -> (r: Self)
        ensures
            r@ == Map::<Seq<char>, CommandEntry>::empty(),
    {
        Registry::new()
    }
}

/// The entry that `register` records.
pub open spec fn entry_for(command_id: i32, flags: i32) -> CommandEntry {
    CommandEntry { command_id, blocking: flags == YAMAMVA_BLOCKING }
}

/// After registering a node type, looking it up finds what was registered (the last
/// registration wins); every other type is found as before.
pub proof fn law_register_then_lookup(
    r: Map<Seq<char>, CommandEntry>,
    t: Seq<char>,
    command_id: i32,
    flags: i32,
    u: Seq<char>,
)
    ensures
        r.insert(t, entry_for(command_id, flags)).contains_key(t),
        r.insert(t, entry_for(command_id, flags))[t] == entry_for(command_id, flags),
        u != t ==> (r.insert(t, entry_for(command_id, flags)).contains_key(u) == r.contains_key(u)),
        u != t && r.contains_key(u) ==> r.insert(t, entry_for(command_id, flags))[u] == r[u],
{
}

/// The table that a sequence of registrations `(node type, command id, flags)` makes,
/// starting from an empty registry.
pub open spec fn registrations(regs: Seq<(Seq<char>, i32, i32)>) -> Map<Seq<char>, CommandEntry>
    decreases regs.len(),
{
    if regs.len() == 0 {
        Map::empty()
    } else {
        registrations(regs.drop_last()).insert(
            regs.last().0,
            entry_for(regs.last().1, regs.last().2),
        )
    }
}

/// After any sequence of registrations on a new registry, a node type is found
/// exactly when some registration named it, and then it is found with the entry of
/// the last registration that named it.
pub proof fn law_last_registration_wins(regs: Seq<(Seq<char>, i32, i32)>, t: Seq<char>)
    ensures
        registrations(regs).contains_key(t) <==> exists|i: int|
            0 <= i < regs.len() && #[trigger] regs[i].0 == t,
        registrations(regs).contains_key(t) ==> exists|i: int|
            0 <= i < regs.len() && #[trigger] regs[i].0 == t && (forall|j: int|
                i < j < regs.len() ==> #[trigger] regs[j].0 != t) && registrations(regs)[t]
                == entry_for(regs[i].1, regs[i].2),
    decreases regs.len(),
{
    if regs.len() > 0 {
        let p = regs.drop_last();
        let n = regs.len() - 1;
        law_last_registration_wins(p, t);
        if regs[n].0 == t {
            assert(forall|j: int| n < j < regs.len() ==> #[trigger] regs[j].0 != t);
        } else {
            if exists|i: int| 0 <= i < p.len() && #[trigger] p[i].0 == t {
                let i = choose|i: int| 0 <= i < p.len() && #[trigger] p[i].0 == t;
                assert(regs[i] == p[i]);
            }
            if exists|i: int| 0 <= i < regs.len() && #[trigger] regs[i].0 == t {
                let i = choose|i: int| 0 <= i < regs.len() && #[trigger] regs[i].0 == t;
                assert(i != n);
                assert(p[i] == regs[i]);
            }
            if registrations(regs).contains_key(t) {
                let i = choose|i: int|
                    0 <= i < p.len() && #[trigger] p[i].0 == t && (forall|j: int|
                        i < j < p.len() ==> #[trigger] p[j].0 != t) && registrations(p)[t]
                        == entry_for(p[i].1, p[i].2);
                assert(regs[i] == p[i]);
                assert forall|j: int| i < j < regs.len() implies #[trigger] regs[j].0 != t by {
                    if j < n {
                        assert(p[j] == regs[j]);
                    }
                }
            }
        }
    }
}

} // verus!
