use vstd::prelude::*;
use std::collections::HashMap;
use vstd::std_specs::iter::IteratorSpec;

verus! {

/// `names` holds the name of each member of `room` exactly once, in some
/// order: `ids` says whose name stands at each place.
pub open spec fn names_of_members(room: Map<u64, Seq<char>>, names: Seq<String>, ids: Seq<u64>) -> bool {
    &&& ids.len() == names.len()
    &&& ids.no_duplicates()
    &&& ids.to_set() == room.dom()
    &&& forall|i: int| 0 <= i < ids.len() ==> room[#[trigger] ids[i]] == names[i]@
}

/// `names` holds the name of each member of `room` exactly once.
pub open spec fn lists_members(room: Map<u64, Seq<char>>, names: Seq<String>) -> bool {
    exists|ids: Seq<u64>| #[trigger] names_of_members(room, names, ids)
}

/// No member of `room` goes by `name`.
pub open spec fn name_is_free(room: Map<u64, Seq<char>>, name: Seq<char>) -> bool {
    forall|id: u64| #[trigger] room.contains_key(id) ==> room[id] != name
}

/// A request to the room, as the room's owner task receives it.
pub enum RoomRequest {
    /// Admit a member.
    AddClient { id: u64, username: String },
    /// Remove a member.
    CutClient { id: u64 },
    /// Ask for the names of all members.
    ListNames,
    /// Ask whether nobody goes by this name.
    CheckName { username: String },
    /// Pass a line to every member but its sender.
    Broadcast { message: String, from: u64 },
}

/// What the room's owner task does after one request.
pub enum RoomReply {
    /// Nothing is answered.
    Silent,
    /// The id was taken: the asker is answered `false`.
    Refused,
    /// The asker is answered with these names.
    Names(Vec<String>),
    /// The asker is answered whether the name is free.
    NameAvailable(bool),
    /// `message` goes to each of `recipients`.
    Deliver { message: String, recipients: Vec<u64> },
}

/// The members of a chat room, each known by the id of its connection.
pub struct ChatRoom {
    clients: HashMap<u64, String>,
}

impl View for ChatRoom {
    type V = Map<u64, Seq<char>>;

    closed spec fn view(&self) -> Map<u64, Seq<char>> {
        self.clients@.map_values(|name: String| name@)
    }
}

impl ChatRoom {
    /// A room with nobody in it.
    pub fn new() -> (room: ChatRoom)
        ensures
            room@ == Map::<u64, Seq<char>>::empty(),
    {
        let room = ChatRoom { clients: HashMap::new() };
        assert(room@ =~= Map::<u64, Seq<char>>::empty());
        room
    }

    /// Admits `username` under `id`, unless a member with that id is already
    /// present; says whether it was admitted.
    pub fn add_client(&mut self, id: u64, username: String) -> (added: bool)
        ensures
            added == !old(self)@.contains_key(id),
            added ==> final(self)@ == old(self)@.insert(id, username@),
            !added ==> final(self)@ == old(self)@,
    {
        if self.clients.contains_key(&id) {
            false
        } else {
            let ghost name = username@;
            self.clients.insert(id, username);
            assert(self@ =~= old(self)@.insert(id, name));
            true
        }
    }

    /// Removes the member with this id, if there is one.
    pub fn cut_client(&mut self, id: u64)
        ensures
            final(self)@ == old(self)@.remove(id),
    {
        self.clients.remove(&id);
        assert(self@ =~= old(self)@.remove(id));
    }

    /// Whether no member goes by `username`.
    pub fn name_available(&self, username: &String) -> (free: bool)
        ensures
            free == name_is_free(self@, username@),
    {
        let mut free = true;
        for kv in it: self.clients.iter()
            invariant
                it.seq() == vstd::std_specs::hash::spec_hash_map_iter(&self.clients).remaining(),
                free <==> forall|j: int| 0 <= j < it.index() ==> (#[trigger] it.seq()[j]).1@ != username@,
        {
            let same = kv.1.eq(username);
            assert(same == (kv.1@ == username@));
            if same {
                free = false;
            }
        }
        proof {
            let s = vstd::std_specs::hash::spec_hash_map_iter(&self.clients).remaining();
            if free {
                assert forall|id: u64| #[trigger] self@.contains_key(id) implies self@[id] != username@ by {
                    assert(self.clients@.contains_key(id));
                    assert(s.contains((&id, &self.clients@[id])));
                }
            } else {
                let j = choose|j: int| 0 <= j < s.len() && (#[trigger] s[j]).1@ == username@;
                assert(self.clients@.contains_key(*s[j].0));
                assert(self@.contains_key(*s[j].0));
            }
        }
        free
    }

    /// The names of all members, each once, in the order the room's table
    /// hands them out.
    pub fn list_names(&self) -> (names: Vec<String>)
        ensures
            lists_members(self@, names@),
    {
        let ghost s = vstd::std_specs::hash::spec_hash_map_iter(&self.clients).remaining();
        let mut names: Vec<String> = Vec::new();
        for kv in it: self.clients.iter()
            invariant
                it.seq() == s,
                s == vstd::std_specs::hash::spec_hash_map_iter(&self.clients).remaining(),
                s.no_duplicates(),
                names@.len() == it.index(),
                forall|j: int| 0 <= j < it.index() ==> (#[trigger] names@[j])@ == s[j].1@,
        {
            names.push(kv.1.clone());
        }
        proof {
            self.lemma_iteration_lists_members();
            let ids = s.map_values(|kv: (&u64, &String)| *kv.0);
            let shown = names@;
            assert(names_of_members(self@, shown, ids)) by {
                assert(ids.no_duplicates());
                assert(ids.to_set() =~= self@.dom()) by {
                    assert forall|id: u64| ids.to_set().contains(id) implies self@.dom().contains(id) by {
                        let i = choose|i: int| 0 <= i < ids.len() && ids[i] == id;
                        assert(self.clients@.contains_key(*s[i].0));
                    }
                    assert forall|id: u64| self@.dom().contains(id) implies ids.to_set().contains(id) by {
                        let i = choose|i: int| 0 <= i < s.len() && s[i] == (&id, &self.clients@[id]);
                        assert(ids[i] == id);
                    }
                }
                assert forall|i: int| 0 <= i < ids.len() implies self@[#[trigger] ids[i]] == shown[i]@ by {
                    assert(self.clients@.contains_key(*s[i].0));
                }
            }
        }
        names
    }

    /// The ids of all members but `from`, each once, in the order the
    /// room's table hands them out.
    pub fn broadcast_targets(&self, from: u64) -> (targets: Vec<u64>)
        ensures
            targets@.no_duplicates(),
            targets@.to_set() == self@.dom().remove(from),
    {
        let ghost s = vstd::std_specs::hash::spec_hash_map_iter(&self.clients).remaining();
        let mut targets: Vec<u64> = Vec::new();
        let entries = self.clients.iter();
        proof {
            self.lemma_iteration_lists_members();
        }
        for kv in it: entries
            invariant
                it.seq() == s,
                s == vstd::std_specs::hash::spec_hash_map_iter(&self.clients).remaining(),
                forall|i: int, j: int| 0 <= i < s.len() && 0 <= j < s.len() && i != j ==> *s[i].0 != *s[j].0,
                targets@.no_duplicates(),
                forall|id: u64| targets@.contains(id) <==> (id != from && exists|j: int| 0 <= j < it.index() && *(#[trigger] s[j]).0 == id),
        {
            let ghost i = it.index();
            let ghost before = targets@;
            assert(kv == s[i]);
            if *kv.0 != from {
                targets.push(*kv.0);
                assert(!before.contains(*kv.0));
            }
            assert forall|id: u64| targets@.contains(id) <==> (id != from && exists|j: int| 0 <= j < i + 1 && *(#[trigger] s[j]).0 == id) by {
                if targets@.contains(id) {
                    if before.contains(id) {
                        assert(exists|j: int| 0 <= j < i && *(#[trigger] s[j]).0 == id);
                    } else {
                        let k = choose|k: int| 0 <= k < targets@.len() && targets@[k] == id;
                        assert(k == before.len());
                        assert(*s[i].0 == id);
                    }
                }
                if id != from && exists|j: int| 0 <= j < i + 1 && *(#[trigger] s[j]).0 == id {
                    let j = choose|j: int| 0 <= j < i + 1 && *(#[trigger] s[j]).0 == id;
                    if j < i {
                        assert(before.contains(id));
                        let k = choose|k: int| 0 <= k < before.len() && before[k] == id;
                        assert(targets@[k] == id);
                    } else {
                        assert(targets@.last() == id);
                    }
                }
            }
        }
        proof {
            assert forall|id: u64| targets@.to_set().contains(id) <==> self@.dom().remove(from).contains(id) by {
                if self@.dom().remove(from).contains(id) {
                    let i = choose|i: int| 0 <= i < s.len() && s[i] == (&id, &self.clients@[id]);
                    assert(*s[i].0 == id);
                }
                if targets@.contains(id) {
                    let j = choose|j: int| 0 <= j < s.len() && *(#[trigger] s[j]).0 == id;
                    assert(self.clients@.contains_key(*s[j].0));
                }
            }
            assert(targets@.to_set() =~= self@.dom().remove(from));
        }
        targets
    }

    /// Carries out one request.
    pub fn handle_message(&mut self, request: RoomRequest) -> (reply: RoomReply)
        ensures
            match request {
                RoomRequest::AddClient { id, username } => if old(self)@.contains_key(id) {
                    final(self)@ == old(self)@ && reply is Refused
                } else {
                    final(self)@ == old(self)@.insert(id, username@) && reply is Silent
                },
                RoomRequest::CutClient { id } => final(self)@ == old(self)@.remove(id) && reply is Silent,
                RoomRequest::ListNames => final(self)@ == old(self)@ && (reply matches RoomReply::Names(
                    names,
                ) && lists_members(old(self)@, names@)),
                RoomRequest::CheckName { username } => final(self)@ == old(self)@ && reply
                    == RoomReply::NameAvailable(name_is_free(old(self)@, username@)),
                RoomRequest::Broadcast { message, from } => final(self)@ == old(self)@ && (
                reply matches RoomReply::Deliver { message: sent, recipients } && sent == message
                    && recipients@.no_duplicates() && recipients@.to_set() == old(self)@.dom().remove(
                    from,
                )),
            },
    {
        match request {
            RoomRequest::AddClient { id, username } => {
                if self.add_client(id, username) {
                    RoomReply::Silent
                } else {
                    RoomReply::Refused
                }
            },
            RoomRequest::CutClient { id } => {
                self.cut_client(id);
                RoomReply::Silent
            },
            RoomRequest::ListNames => RoomReply::Names(self.list_names()),
            RoomRequest::CheckName { username } => RoomReply::NameAvailable(
                self.name_available(&username),
            ),
            RoomRequest::Broadcast { message, from } => {
                let recipients = self.broadcast_targets(from);
                RoomReply::Deliver { message, recipients }
            },
        }
    }

    /// What iterating the table yields: every member once, with its name.
    proof fn lemma_iteration_lists_members(&self)
        requires
            vstd::std_specs::hash::spec_hash_map_iter(&self.clients).remaining().no_duplicates(),
        ensures
            ({
                let s = vstd::std_specs::hash::spec_hash_map_iter(&self.clients).remaining();
                &&& s.len() == self@.len()
                &&& forall|i: int| 0 <= i < s.len() ==> self@.contains_key(*(#[trigger] s[i]).0) && self@[*s[i].0] == s[i].1@
                &&& forall|i: int, j: int| 0 <= i < s.len() && 0 <= j < s.len() && i != j ==> *s[i].0 != *s[j].0
                &&& forall|id: u64| #[trigger] self@.contains_key(id) ==> s.contains((&id, &self.clients@[id]))
            }),
    {
        let s = vstd::std_specs::hash::spec_hash_map_iter(&self.clients).remaining();
        assert(self@.dom() =~= self.clients@.dom());
        assert forall|i: int, j: int| 0 <= i < s.len() && 0 <= j < s.len() && i != j implies *s[i].0 != *s[j].0 by {
            if *s[i].0 == *s[j].0 {
                assert(self.clients@.contains_key(*s[i].0));
                assert(s[i] == s[j]);
            }
        }
        assert forall|i: int| 0 <= i < s.len() implies self@.contains_key(*(#[trigger] s[i]).0) && self@[*s[i].0] == s[i].1@ by {
            assert(self.clients@.contains_key(*s[i].0));
        }
    }
}

/// Once a member is admitted under a name, that name is no longer free.
pub proof fn lemma_admitted_name_is_taken(room: Map<u64, Seq<char>>, id: u64, name: Seq<char>)
    ensures
        !name_is_free(room.insert(id, name), name),
{
    assert(room.insert(id, name).contains_key(id));
}

/// Admitting a member under a fresh id and then removing that id gives back
/// the room as it was.
pub proof fn lemma_cut_undoes_add(room: Map<u64, Seq<char>>, id: u64, name: Seq<char>)
    requires
        !room.contains_key(id),
    ensures
        room.insert(id, name).remove(id) == room,
{
    assert(room.insert(id, name).remove(id) =~= room);
}

/// A line passed on by a member never goes back to that member, and goes to
/// every other member.
pub proof fn lemma_broadcast_skips_only_sender(
    room: Map<u64, Seq<char>>,
    from: u64,
    recipients: Seq<u64>,
    other: u64,
)
    requires
        recipients.to_set() == room.dom().remove(from),
    ensures
        !recipients.contains(from),
        room.contains_key(other) && other != from ==> recipients.contains(other),
{
    assert(!recipients.to_set().contains(from));
    if room.contains_key(other) && other != from {
        assert(recipients.to_set().contains(other));
    }
}

/// A listing of the room holds one name per member, and each member's name
/// is in it.
pub proof fn lemma_listing_covers_members(room: Map<u64, Seq<char>>, names: Seq<String>)
    requires
        lists_members(room, names),
    ensures
        names.len() == room.dom().len(),
        forall|id: u64| #[trigger] room.contains_key(id) ==> exists|i: int| 0 <= i < names.len() && names[i]@ == room[id],
{
    let ids = choose|ids: Seq<u64>| #[trigger] names_of_members(room, names, ids);
    ids.unique_seq_to_set();
    assert forall|id: u64| #[trigger] room.contains_key(id) implies exists|i: int| 0 <= i < names.len() && names[i]@ == room[id] by {
        assert(ids.to_set().contains(id));
        let i = choose|i: int| 0 <= i < ids.len() && ids[i] == id;
        assert(room[ids[i]] == names[i]@);
    }
}

/// A name is free exactly when no member goes by it: after admitting a
/// member under another name, a free name stays free, and a member going
/// by the name makes it taken.
pub proof fn lemma_free_names(room: Map<u64, Seq<char>>, id: u64, other: Seq<char>, name: Seq<char>)
    ensures
        other != name ==> (name_is_free(room.insert(id, other), name) <==> name_is_free(room.remove(id), name)),
        room.contains_key(id) && room[id] == name ==> !name_is_free(room, name),
        name_is_free(Map::<u64, Seq<char>>::empty(), name),
{
    if other != name {
        let r1 = room.insert(id, other);
        let r2 = room.remove(id);
        if name_is_free(r2, name) {
            assert forall|k: u64| #[trigger] r1.contains_key(k) implies r1[k] != name by {
                if k != id {
                    assert(r2.contains_key(k));
                }
            }
        }
        if name_is_free(r1, name) {
            assert forall|k: u64| #[trigger] r2.contains_key(k) implies r2[k] != name by {
                assert(r1.contains_key(k));
            }
        }
    }
}

} // verus!
