//! The contract's configuration: its tokens, the price of an avatar, the
//! registry of users, the managers, and the trust multiplier for burnt tokens.
use crate::amount::Amount;
use crate::types::{require_owner, Address, ContractError, TokenId};
use vstd::prelude::*;

verus! {

/// Decimals of the core token.
pub const CORE_TOKEN_DECIMALS: u32 = 18;

/// Decimals of the reward token.
pub const REWARD_TOKEN_DECIMALS: u32 = 18;

/// The 1-based position of `a` in `s`, counted from the end, or 0 where `a` is
/// not in `s`. For a list without repeats this is the position of `a`.
pub open spec fn position_of(s: Seq<Seq<u8>>, a: Seq<u8>) -> nat
    decreases s.len(),
{
    if s.len() == 0 {
        0
    } else if s.last() == a {
        s.len()
    } else {
        position_of(s.drop_last(), a)
    }
}

/// What [`position_of`] gives: 0 for an absent element, else a position that
/// holds it, and in a list without repeats the only one.
pub proof fn lemma_position_of(s: Seq<Seq<u8>>, a: Seq<u8>)
    ensures
        position_of(s, a) <= s.len(),
        position_of(s, a) == 0 <==> !s.contains(a),
        position_of(s, a) > 0 ==> s[position_of(s, a) - 1] == a,
        s.no_duplicates() ==> forall|i: int| 0 <= i < s.len() && s[i] == a ==> position_of(s, a) == i + 1,
    decreases s.len(),
{
    if s.len() > 0 {
        let t = s.drop_last();
        lemma_position_of(t, a);
        if s.last() != a {
            assert(s.contains(a) ==> t.contains(a)) by {
                if s.contains(a) {
                    let j = choose|j: int| 0 <= j < s.len() && s[j] == a;
                    assert(t[j] == a);
                }
            }
            assert(t.contains(a) ==> s.contains(a)) by {
                if t.contains(a) {
                    let j = choose|j: int| 0 <= j < t.len() && t[j] == a;
                    assert(s[j] == a);
                }
            }
        } else {
            assert(s[s.len() - 1] == a);
        }
        if s.no_duplicates() {
            assert(t.no_duplicates());
        }
    }
}

/// The addresses of a list of addresses.
pub open spec fn addresses_view(s: Seq<Address>) -> Seq<Seq<u8>> {
    s.map_values(|a: Address| a@)
}

/// The 1-based position of `a` in `list`, 0 where it is absent.
pub fn find_address(list: &Vec<Address>, a: &Address) -> (r: usize)
    ensures
        r == position_of(addresses_view(list@), a@),
{
    let ghost s = addresses_view(list@);
    let mut i: usize = list.len();
    assert(s.take(i as int) =~= s);
    while i > 0
        invariant
            i <= list.len(),
            s == addresses_view(list@),
            position_of(s, a@) == position_of(s.take(i as int), a@),
        decreases i,
    {
        assert(s.take(i as int).drop_last() =~= s.take(i - 1));
        if list[i - 1].same_as(a) {
            return i;
        }
        i = i - 1;
    }
    assert(s.take(0) =~= Seq::<Seq<u8>>::empty());
    0
}

/// Whether no address appears twice in `list`.
pub fn no_repeated_address(list: &Vec<Address>) -> (r: bool)
    ensures
        r == addresses_view(list@).no_duplicates(),
{
    let ghost s = addresses_view(list@);
    let mut i: usize = 0;
    while i < list.len()
        invariant
            i <= list.len(),
            s == addresses_view(list@),
            s.len() == list.len(),
            forall|a: int, b: int| 0 <= a < b < i ==> s[a] != s[b],
        decreases list.len() - i,
    {
        let mut j: usize = 0;
        while j < i
            invariant
                j <= i < list.len(),
                s == addresses_view(list@),
                s.len() == list.len(),
                forall|a: int, b: int| 0 <= a < b < i ==> s[a] != s[b],
                forall|a: int| 0 <= a < j ==> s[a] != s[i as int],
            decreases i - j,
        {
            if list[j].same_as(&list[i]) {
                assert(s[j as int] == s[i as int]);
                assert(!s.no_duplicates());
                return false;
            }
            j = j + 1;
        }
        i = i + 1;
    }
    true
}

/// The configuration as plain values.
pub struct ConfigView {
    pub core_token: Seq<u8>,
    pub reward_token: Seq<u8>,
    pub cost_avatar_set: nat,
    /// The registered users; user `i + 1` is `users[i]`.
    pub users: Seq<Seq<u8>>,
    /// The managers, in the order in which storage keeps them.
    pub managers: Seq<Seq<u8>>,
    pub core_token_burn_trust_multiplier: u8,
}

/// The configuration of the contract.
pub struct Config {
    core_token: TokenId,
    reward_token: TokenId,
    cost_avatar_set: Amount,
    users: Vec<Address>,
    managers: Vec<Address>,
    core_token_burn_trust_multiplier: u8,
}

impl View for Config {
    type V = ConfigView;

    closed spec fn view(&self) -> ConfigView {
        ConfigView {
            core_token: self.core_token@,
            reward_token: self.reward_token@,
            cost_avatar_set: self.cost_avatar_set@,
            users: addresses_view(self.users@),
            managers: addresses_view(self.managers@),
            core_token_burn_trust_multiplier: self.core_token_burn_trust_multiplier,
        }
    }
}

/// The user id of `a`: its position in the registry, 0 for an unknown address.
pub open spec fn user_id(c: ConfigView, a: Seq<u8>) -> nat {
    position_of(c.users, a)
}

/// The multiplier that burning core tokens applies to trust. Storage keeps a zero
/// as nothing, and nothing reads as 1.
pub open spec fn effective_multiplier(c: ConfigView) -> u64 {
    if c.core_token_burn_trust_multiplier == 0 {
        1
    } else {
        c.core_token_burn_trust_multiplier as u64
    }
}

/// The configuration endpoints and storage of the contract.
pub trait ConfigModule: View<V = ConfigView> {
    /// Neither users nor managers repeat.
    spec fn wf(&self) -> bool;

    /// The core token.
    fn core_token(&self) -> (r: &TokenId);

    /// The reward token.
    fn reward_token(&self) -> (r: &TokenId);

    /// The price of setting an avatar.
    fn cost_avatar_set(&self) -> (r: &Amount);

    /// The stored multiplier for burnt core tokens (0 where none was set).
    fn core_token_burn_trust_multiplier(&self) -> (r: u8);

    /// The managers, in storage order.
    fn managers(&self) -> (r: Vec<Address>);

    /// Adds a manager (owner only).
    fn add_manager_endpoint(&mut self, caller: &Address, owner: &Address, address: Address) -> (r:
        Result<(), ContractError>)
        requires
            old(self).wf(),
    ;

    /// Removes a manager (owner only).
    fn remove_manager_endpoint(&mut self, caller: &Address, owner: &Address, address: &Address) -> (r:
        Result<(), ContractError>)
        requires
            old(self).wf(),
    ;

    /// Sets the multiplier for burnt core tokens (owner only).
    fn set_core_token_burn_trust_multiplier_endpoint(
        &mut self,
        caller: &Address,
        owner: &Address,
        multiplier: u8,
    ) -> (r: Result<(), ContractError>)
        requires
            old(self).wf(),
    ;

    /// Refuses the call unless the caller is the owner or a manager.
    fn require_caller_manager(&self, caller: &Address, owner: &Address) -> (r: Result<
        (),
        ContractError,
    >);

    /// The user id of the address, 0 where it is not registered.
    fn get_user_id(&self, address: &Address) -> (r: usize);

    /// The user id of the address, registering it where it is new.
    fn get_or_create_user(&mut self, address: &Address) -> (r: usize)
        requires
            old(self).wf(),
    ;

    /// The number of registered users.
    fn get_user_count(&self) -> (r: usize);

    /// The address of a registered user.
    fn get_user_address(&self, id: usize) -> (r: &Address)
        requires
            1 <= id <= self@.users.len(),
    ;
}

impl Config {
    /// A configuration with the given tokens and avatar price, no users, no
    /// managers and no multiplier.
    pub fn new(core_token: TokenId, reward_token: TokenId, image_update_cost: Amount) -> (r: Config)
        ensures
            r.wf(),
            r@.core_token == core_token@,
            r@.reward_token == reward_token@,
            r@.cost_avatar_set == image_update_cost@,
            r@.users == Seq::<Seq<u8>>::empty(),
            r@.managers == Seq::<Seq<u8>>::empty(),
            r@.core_token_burn_trust_multiplier == 0,
    {
        let r = Config {
            core_token,
            reward_token,
            cost_avatar_set: image_update_cost,
            users: Vec::new(),
            managers: Vec::new(),
            core_token_burn_trust_multiplier: 0,
        };
        assert(r@.users =~= Seq::<Seq<u8>>::empty());
        assert(r@.managers =~= Seq::<Seq<u8>>::empty());
        r
    }

    /// A configuration with these parts, as storage holds them; `None` where
    /// users or managers repeat.
    pub fn from_parts(
        core_token: TokenId,
        reward_token: TokenId,
        cost_avatar_set: Amount,
        users: Vec<Address>,
        managers: Vec<Address>,
        core_token_burn_trust_multiplier: u8,
    ) -> (r: Option<Config>)
        ensures
            r is Some <==> addresses_view(users@).no_duplicates() && addresses_view(
                managers@,
            ).no_duplicates(),
            r matches Some(c) ==> c.wf() && c@ == (ConfigView {
                core_token: core_token@,
                reward_token: reward_token@,
                cost_avatar_set: cost_avatar_set@,
                users: addresses_view(users@),
                managers: addresses_view(managers@),
                core_token_burn_trust_multiplier,
            }),
    {
        if !no_repeated_address(&users) || !no_repeated_address(&managers) {
            return None;
        }
        Some(
            Config {
                core_token,
                reward_token,
                cost_avatar_set,
                users,
                managers,
                core_token_burn_trust_multiplier,
            },
        )
    }

    /// The registered users; user `i + 1` is at index `i`.
    pub fn users(&self) -> (r: &Vec<Address>)
        ensures
            addresses_view(r@) == self@.users,
    {
        &self.users
    }

    /// Forgets the users registered after the first `len`, undoing registrations
    /// of a call that is then refused.
    pub(crate) fn truncate_users(&mut self, len: usize)
        requires
            old(self).wf(),
            len <= old(self)@.users.len(),
        ensures
            final(self).wf(),
            final(self)@ == (ConfigView { users: old(self)@.users.take(len as int), ..old(self)@ }),
    {
        let ghost before = addresses_view(self.users@);
        self.users.truncate(len);
        assert(addresses_view(self.users@) =~= before.take(len as int));
    }
}

impl ConfigModule for Config {
    /// Neither users nor managers repeat.
    open spec fn wf(&self) -> bool {
        &&& self@.users.no_duplicates()
        &&& self@.managers.no_duplicates()
    }

    /// The core token.
    fn core_token(&self) -> (r: &TokenId)
        ensures
            r@ == self@.core_token,
    {
        &self.core_token
    }

    /// The reward token.
    fn reward_token(&self) -> (r: &TokenId)
        ensures
            r@ == self@.reward_token,
    {
        &self.reward_token
    }

    /// The price of setting an avatar.
    fn cost_avatar_set(&self) -> (r: &Amount)
        ensures
            r@ == self@.cost_avatar_set,
    {
        &self.cost_avatar_set
    }

    /// The stored multiplier for burnt core tokens (0 where none was set).
    fn core_token_burn_trust_multiplier(&self) -> (r: u8)
        ensures
            r == self@.core_token_burn_trust_multiplier,
    {
        self.core_token_burn_trust_multiplier
    }

    /// The managers, in storage order.
    fn managers(&self) -> (r: Vec<Address>)
        ensures
            addresses_view(r@) == self@.managers,
    {
        let mut r: Vec<Address> = Vec::new();
        let mut i: usize = 0;
        while i < self.managers.len()
            invariant
                i <= self.managers.len(),
                addresses_view(r@) =~= addresses_view(self.managers@).take(i as int),
            decreases self.managers.len() - i,
        {
            let ghost before = r@;
            r.push(self.managers[i].duplicate());
            assert(addresses_view(r@) =~= addresses_view(before).push(self@.managers[i as int]));
            assert(addresses_view(self.managers@).take(i + 1) =~= addresses_view(
                self.managers@,
            ).take(i as int).push(self@.managers[i as int]));
            i = i + 1;
        }
        assert(addresses_view(self.managers@).take(i as int) =~= addresses_view(self.managers@));
        r
    }

    /// Adds a manager (owner only). An address that already is one stays where
    /// it is.
    fn add_manager_endpoint(&mut self, caller: &Address, owner: &Address, address: Address) -> (r:
        Result<(), ContractError>)
        ensures
            final(self).wf(),
            r is Ok <==> caller@ == owner@,
            r matches Err(e) ==> e == ContractError::OnlyOwner && *final(self) == *old(self),
            r is Ok ==> final(self)@ == (ConfigView {
                managers: if old(self)@.managers.contains(address@) {
                    old(self)@.managers
                } else {
                    old(self)@.managers.push(address@)
                },
                ..old(self)@
            }),
    {
        require_owner(caller, owner)?;
        let p = find_address(&self.managers, &address);
        proof {
            lemma_position_of(self@.managers, address@);
        }
        if p == 0 {
            let ghost before = self.managers@;
            self.managers.push(address);
            assert(addresses_view(self.managers@) =~= addresses_view(before).push(address@));
        }
        Ok(())
    }

    /// Removes a manager (owner only): the last manager takes its place.
    fn remove_manager_endpoint(&mut self, caller: &Address, owner: &Address, address: &Address) -> (r:
        Result<(), ContractError>)
        ensures
            final(self).wf(),
            r is Ok <==> caller@ == owner@,
            r matches Err(e) ==> e == ContractError::OnlyOwner && *final(self) == *old(self),
            r is Ok ==> final(self)@ == (ConfigView {
                managers: swap_removed(old(self)@.managers, address@),
                ..old(self)@
            }),
            r is Ok ==> !final(self)@.managers.contains(address@),
            r is Ok ==> forall|x: Seq<u8>| x != address@ ==> (#[trigger] final(self)@.managers.contains(x)
                <==> old(self)@.managers.contains(x)),
    {
        require_owner(caller, owner)?;
        let p = find_address(&self.managers, address);
        let ghost before = addresses_view(self.managers@);
        proof {
            lemma_position_of(before, address@);
        }
        if p > 0 {
            let last = self.managers.pop().unwrap();
            if p - 1 < self.managers.len() {
                self.managers.set(p - 1, last);
            }
            assert(addresses_view(self.managers@) =~= before.update(p - 1, before.last()).drop_last());
            proof {
                lemma_swap_removed_unique(before, p - 1);
            }
        }
        proof {
            lemma_removed_manager_is_gone(before, address@);
        }
        Ok(())
    }

    /// Sets the multiplier for burnt core tokens (owner only).
    fn set_core_token_burn_trust_multiplier_endpoint(
        &mut self,
        caller: &Address,
        owner: &Address,
        multiplier: u8,
    ) -> (r: Result<(), ContractError>)
        ensures
            final(self).wf(),
            r is Ok <==> caller@ == owner@,
            r matches Err(e) ==> e == ContractError::OnlyOwner && *final(self) == *old(self),
            r is Ok ==> final(self)@ == (ConfigView {
                core_token_burn_trust_multiplier: multiplier,
                ..old(self)@
            }),
    {
        require_owner(caller, owner)?;
        self.core_token_burn_trust_multiplier = multiplier;
        Ok(())
    }

    /// Refuses the call unless the caller is the owner or a manager.
    fn require_caller_manager(&self, caller: &Address, owner: &Address) -> (r: Result<
        (),
        ContractError,
    >)
        ensures
            r is Ok <==> (caller@ == owner@ || self@.managers.contains(caller@)),
            r matches Err(e) ==> e == ContractError::CallerNotManager,
    {
        let is_owner = owner.same_as(caller);
        let is_manager = find_address(&self.managers, caller) != 0;
        proof {
            lemma_position_of(self@.managers, caller@);
        }
        if is_owner || is_manager {
            Ok(())
        } else {
            Err(ContractError::CallerNotManager)
        }
    }

    /// The user id of the address, 0 where it is not registered.
    fn get_user_id(&self, address: &Address) -> (r: usize)
        ensures
            r == user_id(self@, address@),
    {
        find_address(&self.users, address)
    }

    /// The user id of the address, registering it under the next id where it is
    /// new.
    fn get_or_create_user(&mut self, address: &Address) -> (r: usize)
        ensures
            final(self).wf(),
            final(self)@ == (ConfigView { users: registered(old(self)@, address@), ..old(self)@ }),
            r == user_id(final(self)@, address@),
            r > 0,
    {
        let p = find_address(&self.users, address);
        proof {
            lemma_position_of(self@.users, address@);
        }
        if p > 0 {
            return p;
        }
        let ghost before = addresses_view(self.users@);
        self.users.push(address.duplicate());
        assert(addresses_view(self.users@) =~= before.push(address@));
        self.users.len()
    }

    /// The number of registered users.
    fn get_user_count(&self) -> (r: usize)
        ensures
            r == self@.users.len(),
    {
        self.users.len()
    }

    /// The address of a registered user.
    fn get_user_address(&self, id: usize) -> (r: &Address)
        ensures
            r@ == self@.users[id - 1],
    {
        &self.users[id - 1]
    }
}

/// The registry after `a` is registered: unchanged where it already is.
pub open spec fn registered(c: ConfigView, a: Seq<u8>) -> Seq<Seq<u8>> {
    if c.users.contains(a) {
        c.users
    } else {
        c.users.push(a)
    }
}

/// The list after `UnorderedSetMapper::swap_remove` of `a`: its last element
/// takes the place of `a`, and the list is one shorter. Unchanged where `a` is
/// absent.
pub open spec fn swap_removed(s: Seq<Seq<u8>>, a: Seq<u8>) -> Seq<Seq<u8>> {
    let p = position_of(s, a);
    if p == 0 {
        s
    } else {
        s.update(p - 1, s.last()).drop_last()
    }
}

/// The multiplier that burning applies is the stored one whenever one is
/// stored (any non-zero value), and 1 where none is.
pub proof fn lemma_multiplier_is_the_stored_one(c: ConfigView)
    ensures
        c.core_token_burn_trust_multiplier != 0 ==> effective_multiplier(c)
            == c.core_token_burn_trust_multiplier as u64,
        c.core_token_burn_trust_multiplier == 0 ==> effective_multiplier(c) == 1,
{
}

/// Removing a manager from a list without repeats takes exactly that manager
/// out: it is no longer in the list, every other manager stays, nothing repeats,
/// and the list is one shorter where it was present (unchanged where it was not).
pub proof fn lemma_removed_manager_is_gone(s: Seq<Seq<u8>>, a: Seq<u8>)
    requires
        s.no_duplicates(),
    ensures
        !swap_removed(s, a).contains(a),
        swap_removed(s, a).no_duplicates(),
        forall|x: Seq<u8>| x != a ==> (#[trigger] swap_removed(s, a).contains(x) <==> s.contains(x)),
        s.contains(a) ==> swap_removed(s, a).len() == s.len() - 1,
        !s.contains(a) ==> swap_removed(s, a) == s,
{
    lemma_position_of(s, a);
    let p = position_of(s, a);
    if p > 0 {
        let i = p - 1;
        let t = swap_removed(s, a);
        lemma_swap_removed_unique(s, i);
        assert(t == s.update(i, s.last()).drop_last());
        assert forall|x: Seq<u8>| x != a implies (#[trigger] t.contains(x) <==> s.contains(x)) by {
            if s.contains(x) {
                let j = choose|j: int| 0 <= j < s.len() && s[j] == x;
                assert(j != i);
                if j == s.len() - 1 {
                    assert(t[i] == x);
                } else {
                    assert(t[j] == x);
                }
            }
            if t.contains(x) {
                let j = choose|j: int| 0 <= j < t.len() && t[j] == x;
                if j == i {
                    assert(s[s.len() - 1] == x);
                } else {
                    assert(s[j] == x);
                }
            }
        }
    }
}

/// Removing a manager that was just added, where it was not one before,
/// restores the list of managers as it was.
pub proof fn lemma_remove_undoes_add(managers: Seq<Seq<u8>>, a: Seq<u8>)
    requires
        !managers.contains(a),
    ensures
        swap_removed(managers.push(a), a) == managers,
{
    let s = managers.push(a);
    assert(s.last() == a);
    assert(position_of(s, a) == s.len());
    assert(s.update(s.len() - 1, s.last()).drop_last() =~= managers);
}

/// Registering an address keeps the id of every user registered before.
pub proof fn lemma_ids_are_stable(c: ConfigView, a: Seq<u8>, b: Seq<u8>)
    requires
        c.users.no_duplicates(),
        c.users.contains(b),
    ensures
        position_of(registered(c, a), b) == position_of(c.users, b),
{
    lemma_position_of(c.users, b);
    if !c.users.contains(a) {
        assert(c.users.push(a).drop_last() =~= c.users);
        assert(a != b);
    }
}

proof fn lemma_swap_removed_unique(s: Seq<Seq<u8>>, i: int)
    requires
        s.no_duplicates(),
        0 <= i < s.len(),
    ensures
        s.update(i, s.last()).drop_last().no_duplicates(),
        !s.update(i, s.last()).drop_last().contains(s[i]),
{
    let t = s.update(i, s.last()).drop_last();
    assert forall|j: int, k: int| 0 <= j < t.len() && 0 <= k < t.len() && j != k implies t[j]
        != t[k] by {
        let jj = if j == i { s.len() - 1 } else { j };
        let kk = if k == i { s.len() - 1 } else { k };
        assert(t[j] == s[jj]);
        assert(t[k] == s[kk]);
    }
    assert forall|j: int| 0 <= j < t.len() implies t[j] != s[i] by {
        let jj = if j == i { s.len() - 1 } else { j };
        assert(t[j] == s[jj]);
    }
}

} // verus!
