//! The coordination hub: the single authority over the session registry.
//! It mints identities, arbitrates display names, and computes each
//! broadcast's envelope and recipient set; delivering the envelopes over the
//! recipients' channels is its caller's job.
use vstd::prelude::*;

verus! {

/// One registry entry: a live, handshake-complete connection's identity and
/// display name.
#[derive(Debug)]
pub struct UserEntry {
    pub id: usize,
    pub name: String,
}

/// An opaque text payload handed to a connection's outgoing channel.
#[derive(Debug)]
pub struct Message(pub String);

/// A chat message envelope: sender identity and name, the text body, and a
/// snapshot of the registry at the moment of broadcast.
#[derive(Debug)]
pub struct ClientMessage {
    pub id: usize,
    pub user: String,
    pub text: String,
    pub to_users: Vec<UserEntry>,
}

/// A join request: the requested display name, if the client supplied one.
#[derive(Debug)]
pub struct Connect {
    pub req_username: Option<String>,
}

/// A leave notification: the identity, and the name if the join had
/// completed.
#[derive(Debug)]
pub struct Disconnect {
    pub id: usize,
    pub username: Option<String>,
}

/// Why a join request was turned away.
#[derive(Debug, Clone, Copy, PartialEq, Eq, Structural)]
pub enum HubError {
    EmptyName,
    NameTaken,
}

impl HubError {
    /// The human-readable description of this rejection.
    pub fn message(&self) -> (r: String)
        ensures
            *self == HubError::EmptyName ==> r@ == "Username is empty!"@,
            *self == HubError::NameTaken ==> r@ == "Username already taken!"@,
    {
        match self {
            HubError::EmptyName => String::from_str("Username is empty!"),
            HubError::NameTaken => String::from_str("Username already taken!"),
        }
    }
}

/// One fan-out computed by the hub: the envelope to serialize and the
/// identities that must receive it.
#[derive(Debug)]
pub struct Broadcast {
    pub message: ClientMessage,
    pub recipients: Vec<usize>,
}

/// An accepted join: the minted identity, the assigned name, and the join
/// notice owed to the other members.
#[derive(Debug)]
pub struct JoinAccepted {
    pub id: usize,
    pub name: String,
    pub notice: Broadcast,
}

/// The identities of the entries, in registry order.
pub open spec fn spec_ids(reg: Seq<UserEntry>) -> Seq<usize> {
    reg.map_values(|e: UserEntry| e.id)
}

/// Whether some entry carries the identity `id`.
pub open spec fn spec_has_id(reg: Seq<UserEntry>, id: usize) -> bool {
    exists|i: int| 0 <= i < reg.len() && reg[i].id == id
}

/// Whether some entry carries the display name `name`.
pub open spec fn spec_has_name(reg: Seq<UserEntry>, name: Seq<char>) -> bool {
    exists|i: int| 0 <= i < reg.len() && reg[i].name@ == name
}

/// The predicate that keeps every entry but the one of identity `id`.
pub open spec fn keeps_entry(id: usize) -> spec_fn(UserEntry) -> bool {
    |e: UserEntry| e.id != id
}

/// The registry without every entry of identity `id`.
pub open spec fn spec_remove_id(reg: Seq<UserEntry>, id: usize) -> Seq<UserEntry> {
    reg.filter(keeps_entry(id))
}

/// The predicate that keeps every identity but `skip`.
pub open spec fn keeps_id(skip: usize) -> spec_fn(usize) -> bool {
    |i: usize| i != skip
}

/// The identities a broadcast reaches: every registered identity except
/// `skip`, in registry order.
pub open spec fn spec_recipients(reg: Seq<UserEntry>, skip: usize) -> Seq<usize> {
    spec_ids(reg).filter(keeps_id(skip))
}

/// The display name registered under `id`, if any (first match).
pub open spec fn spec_lookup(reg: Seq<UserEntry>, id: usize) -> Option<Seq<char>>
    decreases reg.len(),
{
    if reg.len() == 0 {
        None
    } else if reg[0].id == id {
        Some(reg[0].name@)
    } else {
        spec_lookup(reg.drop_first(), id)
    }
}

/// A name is found under `id` exactly when some entry carries `id`.
pub proof fn lemma_lookup_some(reg: Seq<UserEntry>, id: usize)
    ensures
        spec_lookup(reg, id) is Some <==> spec_has_id(reg, id),
    decreases reg.len(),
{
    if reg.len() == 0 {
    } else if reg[0].id == id {
    } else {
        lemma_lookup_some(reg.drop_first(), id);
        assert forall|i: int| 0 <= i < reg.len() && reg[i].id == id implies spec_has_id(
            reg.drop_first(),
            id,
        ) by {
            assert(reg.drop_first()[i - 1] == reg[i]);
        }
        if spec_has_id(reg.drop_first(), id) {
            let i = choose|i: int| 0 <= i < reg.drop_first().len() && reg.drop_first()[i].id == id;
            assert(reg[i + 1] == reg.drop_first()[i]);
        }
    }
}

/// Every element of a filtered sequence is an element of the original.
pub proof fn lemma_filter_elems<A>(s: Seq<A>, pred: spec_fn(A) -> bool)
    ensures
        forall|i: int|
            0 <= i < s.filter(pred).len() ==> s.contains(#[trigger] s.filter(pred)[i]),
    decreases s.len(),
{
    reveal(Seq::filter);
    if s.len() != 0 {
        let prefix = s.drop_last();
        lemma_filter_elems(prefix, pred);
        assert forall|i: int| 0 <= i < s.filter(pred).len() implies s.contains(
            s.filter(pred)[i],
        ) by {
            let x = s.filter(pred)[i];
            if pred(s.last()) && i == s.filter(pred).len() - 1 {
                assert(s[s.len() - 1] == x);
            } else {
                assert(prefix.filter(pred).contains(x));
                let j = choose|j: int| 0 <= j < prefix.len() && prefix[j] == x;
                assert(s[j] == x);
            }
        }
    }
}

/// Broadcast exclusion: a fan-out that skips `skip` reaches exactly the
/// registered identities other than `skip`.
pub proof fn lemma_broadcast_exclusion(reg: Seq<UserEntry>, skip: usize)
    ensures
        forall|id: usize|
            spec_recipients(reg, skip).contains(id) <==> (spec_ids(reg).contains(id) && id
                != skip),
{
    let ids = spec_ids(reg);
    let pred = keeps_id(skip);
    lemma_filter_elems(ids, pred);
    assert forall|id: usize| spec_recipients(reg, skip).contains(id) implies (ids.contains(id)
        && id != skip) by {
        let i = choose|i: int| 0 <= i < ids.filter(pred).len() && ids.filter(pred)[i] == id;
        ids.lemma_filter_pred(pred, i);
    }
    assert forall|id: usize| ids.contains(id) && id != skip implies spec_recipients(
        reg,
        skip,
    ).contains(id) by {
        let i = choose|i: int| 0 <= i < ids.len() && ids[i] == id;
        ids.lemma_filter_contains(pred, i);
    }
}

/// Removal removes: the departed identity is gone, every other registered
/// identity is still there.
pub proof fn lemma_remove_id(reg: Seq<UserEntry>, id: usize)
    ensures
        !spec_has_id(spec_remove_id(reg, id), id),
        forall|other: usize|
            other != id ==> (spec_has_id(spec_remove_id(reg, id), other) <==> spec_has_id(
                reg,
                other,
            )),
{
    let pred = keeps_entry(id);
    let out = reg.filter(pred);
    lemma_filter_elems(reg, pred);
    assert forall|i: int| 0 <= i < out.len() implies out[i].id != id by {
        reg.lemma_filter_pred(pred, i);
    }
    assert forall|other: usize| other != id && spec_has_id(reg, other) implies spec_has_id(
        out,
        other,
    ) by {
        let i = choose|i: int| 0 <= i < reg.len() && reg[i].id == other;
        reg.lemma_filter_contains(pred, i);
        let j = choose|j: int| 0 <= j < out.len() && out[j] == reg[i];
    }
    assert forall|other: usize| other != id && spec_has_id(out, other) implies spec_has_id(
        reg,
        other,
    ) by {
        let i = choose|i: int| 0 <= i < out.len() && out[i].id == other;
        let x = out[i];
        assert(reg.contains(x));
    }
}

/// Removing an identity that no entry carries leaves the registry as it is.
pub proof fn lemma_remove_absent(reg: Seq<UserEntry>, id: usize)
    requires
        !spec_has_id(reg, id),
    ensures
        spec_remove_id(reg, id) == reg,
    decreases reg.len(),
{
    reveal(Seq::filter);
    if reg.len() != 0 {
        let prefix = reg.drop_last();
        assert forall|i: int| 0 <= i < prefix.len() implies prefix[i].id != id by {
            assert(reg[i] == prefix[i]);
        }
        lemma_remove_absent(prefix, id);
        assert(reg.last().id != id);
        assert(spec_remove_id(reg, id) =~= reg);
    } else {
        assert(spec_remove_id(reg, id) =~= reg);
    }
}

/// The identities sequence holds `id` exactly when some entry carries it.
pub proof fn lemma_ids_contains(reg: Seq<UserEntry>, id: usize)
    ensures
        spec_ids(reg).contains(id) <==> spec_has_id(reg, id),
{
    if spec_has_id(reg, id) {
        let i = choose|i: int| 0 <= i < reg.len() && reg[i].id == id;
        assert(spec_ids(reg)[i] == id);
    }
    if spec_ids(reg).contains(id) {
        let i = choose|i: int| 0 <= i < spec_ids(reg).len() && spec_ids(reg)[i] == id;
        assert(reg[i].id == id);
    }
}

/// Leave before removal, then relay: once an identity has departed, it is no
/// longer registered, so no later relay reaches it.
pub proof fn lemma_leave_then_relay(reg: Seq<UserEntry>, departed: usize, sender: usize)
    ensures
        !spec_has_id(spec_remove_id(reg, departed), departed),
        !spec_recipients(spec_remove_id(reg, departed), sender).contains(departed),
{
    let after = spec_remove_id(reg, departed);
    lemma_remove_id(reg, departed);
    lemma_broadcast_exclusion(after, sender);
    lemma_ids_contains(after, departed);
}

/// Removal happens exactly once: a second removal of the same identity is a
/// no-op.
pub proof fn lemma_remove_idempotent(reg: Seq<UserEntry>, id: usize)
    ensures
        spec_remove_id(spec_remove_id(reg, id), id) == spec_remove_id(reg, id),
{
    lemma_remove_id(reg, id);
    lemma_remove_absent(spec_remove_id(reg, id), id);
}

/// The character of one decimal digit.
pub open spec fn spec_digit_char(d: int) -> char {
    if d == 0 {
        '0'
    } else if d == 1 {
        '1'
    } else if d == 2 {
        '2'
    } else if d == 3 {
        '3'
    } else if d == 4 {
        '4'
    } else if d == 5 {
        '5'
    } else if d == 6 {
        '6'
    } else if d == 7 {
        '7'
    } else if d == 8 {
        '8'
    } else {
        '9'
    }
}

/// The decimal digits of `n`, most significant first, no leading zeros
/// (except for `n == 0` itself).
pub open spec fn spec_decimal(n: nat) -> Seq<char>
    decreases n,
{
    if n < 10 {
        seq![spec_digit_char(n as int)]
    } else {
        spec_decimal(n / 10) + seq![spec_digit_char((n % 10) as int)]
    }
}

/// The display name synthesized for a guest from the random draw `n`.
pub open spec fn spec_guest_name(n: u32) -> Seq<char> {
    "guest"@ + spec_decimal(n as nat)
}

/// The one-character string of a decimal digit.
fn digit_str(d: u32) -> (r: String)
    requires
        d < 10,
    ensures
        r@ == seq![spec_digit_char(d as int)],
{
    let r = match d {
        0 => String::from_str("0"),
        1 => String::from_str("1"),
        2 => String::from_str("2"),
        3 => String::from_str("3"),
        4 => String::from_str("4"),
        5 => String::from_str("5"),
        6 => String::from_str("6"),
        7 => String::from_str("7"),
        8 => String::from_str("8"),
        _ => String::from_str("9"),
    };
    proof {
        reveal_strlit("0");
        reveal_strlit("1");
        reveal_strlit("2");
        reveal_strlit("3");
        reveal_strlit("4");
        reveal_strlit("5");
        reveal_strlit("6");
        reveal_strlit("7");
        reveal_strlit("8");
        reveal_strlit("9");
        assert(r@ =~= seq![spec_digit_char(d as int)]);
    }
    r
}

/// The decimal rendering of `n`.
pub fn u32_decimal(n: u32) -> (r: String)
    ensures
        r@ == spec_decimal(n as nat),
    decreases n,
{
    if n < 10 {
        digit_str(n)
    } else {
        let mut s = u32_decimal(n / 10);
        let tail = digit_str(n % 10);
        s.append(tail.as_str());
        s
    }
}

/// Relies on `rand::random`: a uniformly drawn 32-bit integer. Nothing can
/// be promised of the value.
#[verifier::external_body]
fn random_u32() -> u32 {
    rand::random::<u32>()
}

/// The coordination hub. `next_id` is the identity the next join will be
/// minted; every registered identity was minted earlier, which keeps them
/// unique.
#[derive(Debug)]
pub struct ChatServ {
    pub registry: Vec<UserEntry>,
    pub next_id: usize,
}

impl ChatServ {
    /// The hub's invariant: minted identities are below `next_id` and
    /// pairwise distinct.
    pub open spec fn wf(self) -> bool {
        &&& forall|i: int|
            0 <= i < self.registry@.len() ==> (#[trigger] self.registry@[i]).id < self.next_id
        &&& forall|i: int, j: int|
            0 <= i < j < self.registry@.len() ==> self.registry@[i].id != self.registry@[j].id
    }

    /// An empty hub, ready to arbitrate.
    pub fn new() -> (r: ChatServ)
        ensures
            r.wf(),
            r.registry@.len() == 0,
            r.next_id == 1,
    {
        ChatServ { registry: Vec::new(), next_id: 1 }
    }

    /// A synthesized guest name: `guest` followed by a random nonnegative
    /// integer. Synthesized names are not checked against collisions; only
    /// the randomness of the draw keeps them apart.
    pub fn gen_random_username(&self) -> (r: String)
        ensures
            exists|n: u32| r@ == #[trigger] spec_guest_name(n),
    {
        let n = random_u32();
        let mut s = String::from_str("guest");
        let tail = u32_decimal(n);
        s.append(tail.as_str());
        proof {
            assert(s@ == spec_guest_name(n));
        }
        s
    }

    /// Validate a requested display name: it must be non-empty and must not
    /// match any currently registered name (case-sensitive, exact).
    pub fn validate_username(&self, username: String) -> (r: Result<String, HubError>)
        ensures
            username@.len() == 0 ==> r == Err::<String, HubError>(HubError::EmptyName),
            username@.len() != 0 && spec_has_name(self.registry@, username@) ==> r == Err::<
                String,
                HubError,
            >(HubError::NameTaken),
            username@.len() != 0 && !spec_has_name(self.registry@, username@) ==> (r matches Ok(u)
                && u@ == username@),
    {
        if username.as_str().is_empty() {
            return Err(HubError::EmptyName);
        }
        let n = self.registry.len();
        let mut i: usize = 0;
        while i < n
            invariant
                n == self.registry@.len(),
                i <= n,
                username@.len() != 0,
                forall|j: int| 0 <= j < i ==> self.registry@[j].name@ != username@,
            decreases n - i,
        {
            if self.registry[i].name == username {
                proof {
                    assert(self.registry@[i as int].name@ == username@);
                }
                return Err(HubError::NameTaken);
            }
            i += 1;
        }
        Ok(username)
    }
}

/// Filtering a sequence extended by one element keeps the element exactly
/// when the predicate holds of it.
proof fn lemma_filter_push<A>(s: Seq<A>, x: A, pred: spec_fn(A) -> bool)
    ensures
        s.push(x).filter(pred) == if pred(x) {
            s.filter(pred).push(x)
        } else {
            s.filter(pred)
        },
{
    reveal(Seq::filter);
    assert(s.push(x).drop_last() =~= s);
    assert(s.push(x).last() == x);
}

impl ChatServ {
    /// A deep copy of the registry: the snapshot a broadcast envelope
    /// carries.
    fn clone_registry(&self) -> (r: Vec<UserEntry>)
        ensures
            r@ == self.registry@,
    {
        let n = self.registry.len();
        let mut r: Vec<UserEntry> = Vec::new();
        let mut i: usize = 0;
        while i < n
            invariant
                n == self.registry@.len(),
                i <= n,
                r@ == self.registry@.take(i as int),
            decreases n - i,
        {
            let e = &self.registry[i];
            r.push(UserEntry { id: e.id, name: e.name.clone() });
            proof {
                assert(self.registry@.take(i + 1) =~= self.registry@.take(i as int).push(
                    self.registry@[i as int],
                ));
            }
            i += 1;
        }
        proof {
            assert(self.registry@.take(n as int) =~= self.registry@);
        }
        r
    }

    /// The registered identities, in registry order.
    fn member_ids(&self) -> (r: Vec<usize>)
        ensures
            r@ == spec_ids(self.registry@),
    {
        let n = self.registry.len();
        let mut r: Vec<usize> = Vec::new();
        let mut i: usize = 0;
        while i < n
            invariant
                n == self.registry@.len(),
                i <= n,
                r@ == spec_ids(self.registry@.take(i as int)),
            decreases n - i,
        {
            r.push(self.registry[i].id);
            proof {
                assert(spec_ids(self.registry@.take(i + 1)) =~= spec_ids(
                    self.registry@.take(i as int),
                ).push(self.registry@[i as int].id));
            }
            i += 1;
        }
        proof {
            assert(self.registry@.take(n as int) =~= self.registry@);
        }
        r
    }

    /// Whether `id` is currently registered.
    fn contains_id(&self, id: usize) -> (r: bool)
        ensures
            r == spec_has_id(self.registry@, id),
    {
        let n = self.registry.len();
        let mut i: usize = 0;
        while i < n
            invariant
                n == self.registry@.len(),
                i <= n,
                forall|j: int| 0 <= j < i ==> self.registry@[j].id != id,
            decreases n - i,
        {
            if self.registry[i].id == id {
                return true;
            }
            i += 1;
        }
        false
    }

    /// The display name registered under `id`, if any.
    pub fn lookup_username(&self, id: usize) -> (r: Option<String>)
        ensures
            match r {
                Some(name) => spec_lookup(self.registry@, id) == Some(name@),
                None => spec_lookup(self.registry@, id) is None,
            },
    {
        let n = self.registry.len();
        let mut i: usize = 0;
        proof {
            assert(self.registry@.skip(0) =~= self.registry@);
        }
        while i < n
            invariant
                n == self.registry@.len(),
                i <= n,
                spec_lookup(self.registry@, id) == spec_lookup(
                    self.registry@.skip(i as int),
                    id,
                ),
            decreases n - i,
        {
            let e = &self.registry[i];
            proof {
                assert(self.registry@.skip(i as int)[0] == self.registry@[i as int]);
                assert(self.registry@.skip(i as int).drop_first() =~= self.registry@.skip(
                    i + 1,
                ));
            }
            if e.id == id {
                return Some(e.name.clone());
            }
            i += 1;
        }
        proof {
            assert(self.registry@.skip(n as int) =~= Seq::<UserEntry>::empty());
        }
        None
    }

    /// Compute one fan-out: the envelope together with every registered
    /// identity except `skip_id`, in registry order. Handing each recipient
    /// its copy — and swallowing any failed delivery — is the caller's job.
    pub fn send_message(&self, message: ClientMessage, skip_id: usize) -> (r: Broadcast)
        ensures
            r.message == message,
            r.recipients@ == spec_recipients(self.registry@, skip_id),
    {
        let n = self.registry.len();
        let mut recipients: Vec<usize> = Vec::new();
        let mut i: usize = 0;
        while i < n
            invariant
                n == self.registry@.len(),
                i <= n,
                recipients@ == spec_recipients(self.registry@.take(i as int), skip_id),
            decreases n - i,
        {
            let id = self.registry[i].id;
            proof {
                let reg = self.registry@;
                let prefix = reg.take(i as int);
                assert(reg.take(i + 1) =~= prefix.push(reg[i as int]));
                assert(spec_ids(reg.take(i + 1)) =~= spec_ids(prefix).push(reg[i as int].id));
                lemma_filter_push(spec_ids(prefix), reg[i as int].id, keeps_id(skip_id));
            }
            if id != skip_id {
                recipients.push(id);
            }
            i += 1;
        }
        proof {
            assert(self.registry@.take(n as int) =~= self.registry@);
        }
        Broadcast { message, recipients }
    }
}

/// What a system notice owed to the members looks like: sent by the host
/// (identity 0), carrying `text` and the registry snapshot `reg`, addressed
/// to `recipients`.
pub open spec fn spec_notice(
    b: Broadcast,
    text: Seq<char>,
    reg: Seq<UserEntry>,
    recipients: Seq<usize>,
) -> bool {
    &&& b.message.id == 0
    &&& b.message.user@ == "Host"@
    &&& b.message.text@ == text
    &&& b.message.to_users@ == reg
    &&& b.recipients@ == recipients
}

impl ChatServ {
    /// Process a join request. A requested name must be non-empty and free,
    /// else the request is rejected with the exact reason; a guest without a
    /// requested name always joins under a synthesized name. On success the
    /// hub mints a fresh identity, registers the entry, and computes the
    /// join notice owed to all other current members.
    pub fn handle_connect(&mut self, message: Connect) -> (r: Result<JoinAccepted, HubError>)
        requires
            old(self).wf(),
            old(self).next_id < usize::MAX,
        ensures
            final(self).wf(),
            r is Ok <==> (match message.req_username {
                Some(u) => u@.len() != 0 && !spec_has_name(old(self).registry@, u@),
                None => true,
            }),
            r matches Err(e) ==> {
                &&& final(self).registry@ == old(self).registry@
                &&& final(self).next_id == old(self).next_id
                &&& (message.req_username matches Some(u) && (e == HubError::EmptyName <==> u@.len()
                    == 0))
            },
            r matches Ok(j) ==> {
                &&& j.id == old(self).next_id
                &&& final(self).next_id == old(self).next_id + 1
                &&& final(self).registry@.len() == old(self).registry@.len() + 1
                &&& final(self).registry@.drop_last() == old(self).registry@
                &&& final(self).registry@.last().id == j.id
                &&& final(self).registry@.last().name@ == j.name@
                &&& spec_notice(
                    j.notice,
                    j.name@ + " connected!"@,
                    final(self).registry@,
                    spec_recipients(final(self).registry@, j.id),
                )
                &&& (match message.req_username {
                    Some(u) => j.name@ == u@,
                    None => exists|n: u32| j.name@ == #[trigger] spec_guest_name(n),
                })
            },
    {
        let name = match message.req_username {
            Some(requested) => match self.validate_username(requested) {
                Ok(u) => u,
                Err(e) => {
                    return Err(e);
                },
            },
            None => self.gen_random_username(),
        };
        let id = self.next_id;
        self.next_id = self.next_id + 1;
        let entry = UserEntry { id, name: name.clone() };
        self.registry.push(entry);
        proof {
            let old_reg = old(self).registry@;
            assert(self.registry@.drop_last() =~= old_reg);
            assert forall|i: int, j: int|
                0 <= i < j < self.registry@.len() implies self.registry@[i].id
                != self.registry@[j].id by {
                if j == self.registry@.len() - 1 {
                    assert(old_reg[i].id < old(self).next_id);
                }
            }
        }
        let text = name.clone().concat(" connected!");
        let notice_msg = ClientMessage {
            id: 0,
            user: String::from_str("Host"),
            text,
            to_users: self.clone_registry(),
        };
        let notice = self.send_message(notice_msg, id);
        Ok(JoinAccepted { id, name, notice })
    }

    /// Process a leave. Every entry of the departing identity is removed;
    /// if a name had been associated and the identity was registered, the
    /// leave notice owed to the remaining members is computed, naming the
    /// departing member while no longer listing it in the snapshot.
    pub fn handle_disconnect(&mut self, message: Disconnect) -> (r: Option<Broadcast>)
        requires
            old(self).wf(),
        ensures
            final(self).wf(),
            final(self).registry@ == spec_remove_id(old(self).registry@, message.id),
            final(self).next_id == old(self).next_id,
            r is Some <==> (message.username is Some && spec_has_id(
                old(self).registry@,
                message.id,
            )),
            r matches Some(b) ==> (message.username matches Some(u) && spec_notice(
                b,
                u@ + " disconnected!"@,
                final(self).registry@,
                spec_ids(final(self).registry@),
            )),
    {
        let was_member = self.contains_id(message.id);
        let n = self.registry.len();
        let mut kept: Vec<UserEntry> = Vec::new();
        let mut i: usize = 0;
        while i < n
            invariant
                n == self.registry@.len(),
                i <= n,
                kept@ == spec_remove_id(self.registry@.take(i as int), message.id),
            decreases n - i,
        {
            let e = &self.registry[i];
            proof {
                let reg = self.registry@;
                let prefix = reg.take(i as int);
                assert(reg.take(i + 1) =~= prefix.push(reg[i as int]));
                lemma_filter_push(prefix, reg[i as int], keeps_entry(message.id));
            }
            if e.id != message.id {
                kept.push(UserEntry { id: e.id, name: e.name.clone() });
            }
            i += 1;
        }
        proof {
            assert(self.registry@.take(n as int) =~= self.registry@);
        }
        self.registry = kept;
        proof {
            let old_reg = old(self).registry@;
            let pred = keeps_entry(message.id);
            lemma_filter_elems(old_reg, pred);
            assert forall|i: int|
                0 <= i < self.registry@.len() implies (#[trigger] self.registry@[i]).id
                < self.next_id by {
                assert(old_reg.contains(self.registry@[i]));
            }
            assert forall|i: int, j: int|
                0 <= i < j < self.registry@.len() implies self.registry@[i].id
                != self.registry@[j].id by {
                lemma_filter_distinct(old_reg, pred, i, j);
            }
        }
        match message.username {
            Some(username) => {
                if was_member {
                    let text = username.concat(" disconnected!");
                    let notice_msg = ClientMessage {
                        id: 0,
                        user: String::from_str("Host"),
                        text,
                        to_users: self.clone_registry(),
                    };
                    let recipients = self.member_ids();
                    Some(Broadcast { message: notice_msg, recipients })
                } else {
                    None
                }
            },
            None => None,
        }
    }

    /// Process a relay. The hub looks the sender's current name up, stamps
    /// the envelope with the registry as it stands at this moment, and
    /// addresses every registered identity except the sender. A sender that
    /// is no longer registered gets nothing relayed.
    pub fn handle_relay(&self, message: ClientMessage) -> (r: Option<Broadcast>)
        ensures
            r is Some <==> spec_has_id(self.registry@, message.id),
            r matches Some(b) ==> {
                &&& b.message.id == message.id
                &&& Some(b.message.user@) == spec_lookup(self.registry@, message.id)
                &&& b.message.text@ == message.text@
                &&& b.message.to_users@ == self.registry@
                &&& b.recipients@ == spec_recipients(self.registry@, message.id)
            },
    {
        proof {
            lemma_lookup_some(self.registry@, message.id);
        }
        let user = match self.lookup_username(message.id) {
            Some(u) => u,
            None => {
                return None;
            },
        };
        let envelope = ClientMessage {
            id: message.id,
            user,
            text: message.text,
            to_users: self.clone_registry(),
        };
        Some(self.send_message(envelope, message.id))
    }
}

/// Two positions of a filtered sequence stem from two distinct positions of
/// the original; with pairwise distinct identities in the original, the
/// filtered identities stay pairwise distinct.
proof fn lemma_filter_distinct(
    s: Seq<UserEntry>,
    pred: spec_fn(UserEntry) -> bool,
    i: int,
    j: int,
)
    requires
        forall|a: int, b: int| 0 <= a < b < s.len() ==> s[a].id != s[b].id,
        0 <= i < j < s.filter(pred).len(),
    ensures
        s.filter(pred)[i].id != s.filter(pred)[j].id,
    decreases s.len(),
{
    reveal(Seq::filter);
    if s.len() != 0 {
        let prefix = s.drop_last();
        assert forall|a: int, b: int| 0 <= a < b < prefix.len() implies prefix[a].id
            != prefix[b].id by {
            assert(prefix[a] == s[a] && prefix[b] == s[b]);
        }
        if pred(s.last()) && j == s.filter(pred).len() - 1 {
            lemma_filter_elems(prefix, pred);
            assert(prefix.contains(prefix.filter(pred)[i]));
            let a = choose|a: int|
                0 <= a < prefix.len() && prefix[a] == prefix.filter(pred)[i];
            assert(s[a].id != s[s.len() - 1].id);
        } else {
            lemma_filter_distinct(prefix, pred, i, j);
        }
    }
}

} // verus!
