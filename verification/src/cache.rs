//! The identity cache: display names for opaque user ids, per guild and
//! globally, fed by membership events and lookups.
//!
//! The platform's directory is the external collaborator; this component
//! only remembers what it was told. There is no eviction: the cache is
//! bounded by guild membership. On a miss the front-end asks the platform
//! and writes the answer back through `update`.

use vstd::prelude::*;

verus! {

/// What a map of an association list says: later entries win.
pub open spec fn assoc_map<K>(s: Seq<(K, String)>) -> Map<K, Seq<char>>
    decreases s.len(),
{
    if s.len() == 0 {
        Map::empty()
    } else {
        assoc_map(s.drop_last()).insert(s.last().0, s.last().1@)
    }
}

/// No key appears twice.
pub open spec fn keys_unique<K>(s: Seq<(K, String)>) -> bool {
    forall|i: int, j: int| 0 <= i < j < s.len() ==> (#[trigger] s[i]).0 != (#[trigger] s[j]).0
}

/// A key is known exactly where some entry carries it.
proof fn lemma_assoc_contains<K>(s: Seq<(K, String)>, k: K)
    ensures
        assoc_map(s).dom().contains(k) <==> exists|i: int|
            0 <= i < s.len() && (#[trigger] s[i]).0 == k,
    decreases s.len(),
{
    if s.len() > 0 {
        lemma_assoc_contains(s.drop_last(), k);
        if s.last().0 == k {
            assert(s[s.len() - 1].0 == k);
        } else if assoc_map(s).dom().contains(k) {
            let i = choose|i: int| 0 <= i < s.drop_last().len() && (#[trigger] s.drop_last()[i]).0 == k;
            assert(s[i].0 == k);
        } else {
            if exists|i: int| 0 <= i < s.len() && (#[trigger] s[i]).0 == k {
                let i = choose|i: int| 0 <= i < s.len() && (#[trigger] s[i]).0 == k;
                assert(i < s.len() - 1);
                assert(s.drop_last()[i].0 == k);
            }
        }
    }
}

/// With unique keys, each entry's value is what the map answers.
proof fn lemma_assoc_at<K>(s: Seq<(K, String)>, i: int)
    requires
        keys_unique(s),
        0 <= i < s.len(),
    ensures
        assoc_map(s).dom().contains(s[i].0),
        assoc_map(s)[s[i].0] == s[i].1@,
    decreases s.len(),
{
    if i == s.len() - 1 {
    } else {
        assert(keys_unique(s.drop_last())) by {
            assert forall|a: int, b: int|
                0 <= a < b < s.drop_last().len() implies (#[trigger] s.drop_last()[a]).0 != (
            #[trigger] s.drop_last()[b]).0 by {
                assert(s[a].0 != s[b].0);
            }
        }
        assert(s.drop_last()[i] == s[i]);
        lemma_assoc_at(s.drop_last(), i);
        assert(s[i].0 != s.last().0);
    }
}

/// With unique keys, replacing an entry's value is the map's insert.
proof fn lemma_assoc_update<K>(s: Seq<(K, String)>, i: int, v: String)
    requires
        keys_unique(s),
        0 <= i < s.len(),
    ensures
        assoc_map(s.update(i, (s[i].0, v))) =~= assoc_map(s).insert(s[i].0, v@),
    decreases s.len(),
{
    let s2 = s.update(i, (s[i].0, v));
    if i == s.len() - 1 {
        assert(s2.drop_last() =~= s.drop_last());
        assert(s2.last() == (s[i].0, v));
    } else {
        assert(keys_unique(s.drop_last())) by {
            assert forall|a: int, b: int|
                0 <= a < b < s.drop_last().len() implies (#[trigger] s.drop_last()[a]).0 != (
            #[trigger] s.drop_last()[b]).0 by {
                assert(s[a].0 != s[b].0);
            }
        }
        assert(s.drop_last()[i] == s[i]);
        lemma_assoc_update(s.drop_last(), i, v);
        assert(s2.drop_last() =~= s.drop_last().update(i, (s[i].0, v)));
        assert(s2.last() == s.last());
        assert(s[i].0 != s.last().0);
        assert(assoc_map(s2) =~= assoc_map(s.drop_last().update(i, (s[i].0, v))).insert(
            s.last().0,
            s.last().1@,
        ));
    }
}

/// One guild member as the membership events deliver it: who they are and
/// how they are named, in the guild and globally.
#[derive(Debug, Clone, PartialEq)]
pub struct MemberInfo {
    pub guild: u64,
    pub user: u64,
    pub display_name: String,
    pub user_name: String,
}

/// The cache itself: names per (guild, user) and per user.
#[derive(Debug)]
pub struct Cache {
    pub members: Vec<((u64, u64), String)>,
    pub users: Vec<(u64, String)>,
}

/// Mathematical view of the cache: two maps.
pub struct CacheV {
    pub members: Map<(u64, u64), Seq<char>>,
    pub users: Map<u64, Seq<char>>,
}

impl View for Cache {
    type V = CacheV;

    open spec fn view(&self) -> CacheV {
        CacheV { members: assoc_map(self.members@), users: assoc_map(self.users@) }
    }
}

/// Folding a batch of members into the cache, oldest first.
pub open spec fn batch_fold(c: CacheV, ms: Seq<MemberInfo>) -> CacheV
    decreases ms.len(),
{
    if ms.len() == 0 {
        c
    } else {
        let d = batch_fold(c, ms.drop_last());
        let m = ms.last();
        CacheV {
            members: d.members.insert((m.guild, m.user), m.display_name@),
            users: d.users.insert(m.user, m.user_name@),
        }
    }
}

impl Cache {
    /// Both association lists keep their keys unique.
    pub open spec fn wf(&self) -> bool {
        keys_unique(self.members@) && keys_unique(self.users@)
    }

    /// An empty cache; it fills on demand and on membership events.
    pub fn new() -> (r: Cache)
        ensures
            r.wf(),
            r@.members == Map::<(u64, u64), Seq<char>>::empty(),
            r@.users == Map::<u64, Seq<char>>::empty(),
    {
        let r = Cache { members: Vec::new(), users: Vec::new() };
        proof {
            assert(r.members@.len() == 0);
            assert(r.users@.len() == 0);
        }
        r
    }

    /// Remember one member: both the guild name and the global name.
    pub fn update(&mut self, m: MemberInfo)
        requires
            old(self).wf(),
        ensures
            final(self).wf(),
            final(self)@.members == old(self)@.members.insert((m.guild, m.user), m.display_name@),
            final(self)@.users == old(self)@.users.insert(m.user, m.user_name@),
    {
        let ghost ms0 = self.members@;
        let ghost us0 = self.users@;
        match find_member(&self.members, m.guild, m.user) {
            Some(k) => {
                self.members[k] = ((m.guild, m.user), m.display_name);
                proof {
                    assert(ms0[k as int].0 == (m.guild, m.user));
                    lemma_assoc_update(ms0, k as int, self.members@[k as int].1);
                    assert(assoc_map(self.members@) =~= assoc_map(ms0).insert(
                        (m.guild, m.user),
                        m.display_name@,
                    ));
                    assert forall|a: int, b: int|
                        0 <= a < b < self.members@.len() implies (#[trigger] self.members@[a]).0
                        != (#[trigger] self.members@[b]).0 by {
                        assert(ms0[a].0 == self.members@[a].0);
                        assert(ms0[b].0 == self.members@[b].0);
                    }
                }
            },
            None => {
                self.members.push(((m.guild, m.user), m.display_name));
                proof {
                    assert(self.members@.drop_last() =~= ms0);
                    assert forall|a: int, b: int|
                        0 <= a < b < self.members@.len() implies (#[trigger] self.members@[a]).0
                        != (#[trigger] self.members@[b]).0 by {
                        if b == self.members@.len() - 1 {
                            assert(ms0[a].0 != (m.guild, m.user));
                        } else {
                            assert(ms0[a].0 == self.members@[a].0);
                            assert(ms0[b].0 == self.members@[b].0);
                        }
                    }
                }
            },
        }
        match find_user(&self.users, m.user) {
            Some(k) => {
                self.users[k] = (m.user, m.user_name);
                proof {
                    assert(us0[k as int].0 == m.user);
                    lemma_assoc_update(us0, k as int, self.users@[k as int].1);
                    assert(assoc_map(self.users@) =~= assoc_map(us0).insert(m.user, m.user_name@));
                    assert forall|a: int, b: int|
                        0 <= a < b < self.users@.len() implies (#[trigger] self.users@[a]).0 != (
                    #[trigger] self.users@[b]).0 by {
                        assert(us0[a].0 == self.users@[a].0);
                        assert(us0[b].0 == self.users@[b].0);
                    }
                }
            },
            None => {
                self.users.push((m.user, m.user_name));
                proof {
                    assert(self.users@.drop_last() =~= us0);
                    assert forall|a: int, b: int|
                        0 <= a < b < self.users@.len() implies (#[trigger] self.users@[a]).0 != (
                    #[trigger] self.users@[b]).0 by {
                        if b == self.users@.len() - 1 {
                            assert(us0[a].0 != m.user);
                        } else {
                            assert(us0[a].0 == self.users@[a].0);
                            assert(us0[b].0 == self.users@[b].0);
                        }
                    }
                }
            },
        }
    }

    /// Remember a whole chunk of members, as guild events deliver them.
    pub fn batch_update(&mut self, ms: &Vec<MemberInfo>)
        requires
            old(self).wf(),
        ensures
            final(self).wf(),
            final(self)@.members == batch_fold(old(self)@, ms@).members,
            final(self)@.users == batch_fold(old(self)@, ms@).users,
    {
        let ghost c0 = self@;
        let n = ms.len();
        let mut i: usize = 0;
        proof {
            assert(ms@.subrange(0, 0) =~= Seq::<MemberInfo>::empty());
        }
        while i < n
            invariant
                n == ms@.len(),
                i <= n,
                self.wf(),
                self@.members == batch_fold(c0, ms@.subrange(0, i as int)).members,
                self@.users == batch_fold(c0, ms@.subrange(0, i as int)).users,
            decreases n - i,
        {
            let m = &ms[i];
            self.update(
                MemberInfo {
                    guild: m.guild,
                    user: m.user,
                    display_name: m.display_name.clone(),
                    user_name: m.user_name.clone(),
                },
            );
            proof {
                let pre = ms@.subrange(0, i as int);
                let cur = ms@.subrange(0, i as int + 1);
                assert(cur.drop_last() =~= pre);
                assert(cur.last() == ms@[i as int]);
            }
            i = i + 1;
        }
        proof {
            assert(ms@.subrange(0, n as int) =~= ms@);
        }
    }

    /// The cached guild name of this member, if any.
    pub fn lookup_member(&self, guild: u64, user: u64) -> (r: Option<String>)
        requires
            self.wf(),
        ensures
            match r {
                Some(name) => self@.members.dom().contains((guild, user)) && name@
                    == self@.members[(guild, user)],
                None => !self@.members.dom().contains((guild, user)),
            },
    {
        proof {
            lemma_assoc_contains(self.members@, (guild, user));
        }
        match find_member(&self.members, guild, user) {
            Some(k) => {
                proof {
                    lemma_assoc_at(self.members@, k as int);
                }
                Some(self.members[k].1.clone())
            },
            None => None,
        }
    }

    /// The cached global name of this user, if any.
    pub fn lookup_user(&self, user: u64) -> (r: Option<String>)
        requires
            self.wf(),
        ensures
            match r {
                Some(name) => self@.users.dom().contains(user) && name@ == self@.users[user],
                None => !self@.users.dom().contains(user),
            },
    {
        proof {
            lemma_assoc_contains(self.users@, user);
        }
        match find_user(&self.users, user) {
            Some(k) => {
                proof {
                    lemma_assoc_at(self.users@, k as int);
                }
                Some(self.users[k].1.clone())
            },
            None => None,
        }
    }
}

/// The index of this member's entry, if it is there.
fn find_member(ms: &Vec<((u64, u64), String)>, guild: u64, user: u64) -> (r: Option<usize>)
    ensures
        match r {
            Some(k) => k < ms@.len() && ms@[k as int].0 == (guild, user),
            None => forall|i: int| 0 <= i < ms@.len() ==> (#[trigger] ms@[i]).0 != (guild, user),
        },
{
    let n = ms.len();
    let mut i: usize = 0;
    while i < n
        invariant
            n == ms@.len(),
            i <= n,
            forall|j: int| 0 <= j < i ==> (#[trigger] ms@[j]).0 != (guild, user),
        decreases n - i,
    {
        if ms[i].0.0 == guild && ms[i].0.1 == user {
            proof {
                assert(ms@[i as int].0 == (guild, user));
            }
            return Some(i);
        }
        proof {
            assert(ms@[i as int].0 != (guild, user));
        }
        i = i + 1;
    }
    None
}

/// The index of this user's entry, if it is there.
fn find_user(us: &Vec<(u64, String)>, user: u64) -> (r: Option<usize>)
    ensures
        match r {
            Some(k) => k < us@.len() && us@[k as int].0 == user,
            None => forall|i: int| 0 <= i < us@.len() ==> (#[trigger] us@[i]).0 != user,
        },
{
    let n = us.len();
    let mut i: usize = 0;
    while i < n
        invariant
            n == us@.len(),
            i <= n,
            forall|j: int| 0 <= j < i ==> (#[trigger] us@[j]).0 != user,
        decreases n - i,
    {
        if us[i].0 == user {
            return Some(i);
        }
        i = i + 1;
    }
    None
}

} // verus!
