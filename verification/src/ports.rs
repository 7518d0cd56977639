//! The manufacturer lookup the RFQ service consumes: a narrow port, with
//! an in-memory implementation.  A deployment may put its own catalog
//! store behind the same surface.

use vstd::prelude::*;
use crate::entities::ManufacturerProfile;
use crate::text::str_eq;

verus! {

/// Manufacturer lookup and upkeep, abstracted as a map from identifier
/// to profile.
pub trait ManufacturerRepository: Sized {
    /// The implementation's own well-formedness.
    spec fn inv(&self) -> bool;

    /// The known profiles, by identifier.
    spec fn manufacturers(&self) -> Map<Seq<char>, ManufacturerProfile>;

    /// The profile of `id`, if any.
    fn get_manufacturer<'a>(&'a self, id: &str) -> (r: Option<&'a ManufacturerProfile>)
        requires
            self.inv(),
        ensures
            match r {
                Some(p) => self.manufacturers().contains_key(id@) && *p
                    == self.manufacturers()[id@],
                None => !self.manufacturers().contains_key(id@),
            },
    ;

    /// Store `profile` under its identifier, replacing what was there.
    fn save_manufacturer(&mut self, profile: ManufacturerProfile)
        requires
            old(self).inv(),
        ensures
            final(self).inv(),
            final(self).manufacturers() == old(self).manufacturers().insert(
                profile.id@,
                profile,
            ),
    ;
}

/// The profiles spelled by a list; a later entry overrides an earlier
/// one with the same identifier.
pub open spec fn profiles_map(s: Seq<ManufacturerProfile>) -> Map<Seq<char>, ManufacturerProfile>
    decreases s.len(),
{
    if s.len() == 0 {
        Map::empty()
    } else {
        profiles_map(s.drop_last()).insert(s.last().id@, s.last())
    }
}

/// Pairwise distinct identifiers.
pub open spec fn unique_ids(s: Seq<ManufacturerProfile>) -> bool {
    forall|i: int, j: int| 0 <= i < j < s.len() ==> s[i].id@ != s[j].id@
}

proof fn lemma_profiles_map_index(s: Seq<ManufacturerProfile>, i: int)
    requires
        unique_ids(s),
        0 <= i < s.len(),
    ensures
        profiles_map(s).contains_key(s[i].id@),
        profiles_map(s)[s[i].id@] == s[i],
    decreases s.len(),
{
    if i == s.len() - 1 {
    } else {
        assert(s.drop_last()[i] == s[i]);
        lemma_profiles_map_index(s.drop_last(), i);
        assert(s[i].id@ != s.last().id@);
    }
}

proof fn lemma_profiles_map_dom(s: Seq<ManufacturerProfile>, k: Seq<char>)
    requires
        forall|i: int| 0 <= i < s.len() ==> (#[trigger] s[i].id)@ != k,
    ensures
        !profiles_map(s).contains_key(k),
    decreases s.len(),
{
    if s.len() > 0 {
        assert(forall|i: int| 0 <= i < s.len() - 1 ==> #[trigger] s.drop_last()[i] == s[i]);
        lemma_profiles_map_dom(s.drop_last(), k);
        assert(s.last().id@ != k);
    }
}

proof fn lemma_profiles_map_update(s: Seq<ManufacturerProfile>, i: int, p: ManufacturerProfile)
    requires
        unique_ids(s),
        0 <= i < s.len(),
        s[i].id@ == p.id@,
    ensures
        profiles_map(s.update(i, p)) == profiles_map(s).insert(p.id@, p),
    decreases s.len(),
{
    let su = s.update(i, p);
    if i == s.len() - 1 {
        assert(su.drop_last() =~= s.drop_last());
        assert(su.last() == p);
        assert(profiles_map(su) =~= profiles_map(s).insert(p.id@, p));
    } else {
        assert(su.drop_last() =~= s.drop_last().update(i, p));
        assert(su.last() == s.last());
        assert(s.drop_last()[i] == s[i]);
        lemma_profiles_map_update(s.drop_last(), i, p);
        assert(s.last().id@ != p.id@);
        assert(profiles_map(su) =~= profiles_map(s).insert(p.id@, p));
    }
}

fn find_profile(profiles: &Vec<ManufacturerProfile>, id: &str) -> (r: Option<usize>)
    ensures
        match r {
            Some(i) => i < profiles@.len() && profiles@[i as int].id@ == id@,
            None => forall|j: int|
                0 <= j < profiles@.len() ==> (#[trigger] profiles@[j].id)@ != id@,
        },
{
    let n = profiles.len();
    let mut i: usize = 0;
    loop
        invariant
            i <= n,
            n == profiles@.len(),
            forall|j: int| 0 <= j < i ==> (#[trigger] profiles@[j].id)@ != id@,
        decreases n - i,
    {
        if i >= n {
            return None;
        }
        if str_eq(profiles[i].id.as_str(), id) {
            return Some(i);
        }
        i = i + 1;
    }
}

/// The in-memory manufacturer repository: one profile per identifier.
pub struct MemManufacturerRepository {
    profiles: Vec<ManufacturerProfile>,
}

impl MemManufacturerRepository {
    /// A fresh, empty repository.
    pub fn new() -> (r: MemManufacturerRepository)
        ensures
            r.inv(),
            r.manufacturers() == Map::<Seq<char>, ManufacturerProfile>::empty(),
    {
        MemManufacturerRepository { profiles: Vec::new() }
    }
}

impl ManufacturerRepository for MemManufacturerRepository {
    closed spec fn inv(&self) -> bool {
        unique_ids(self.profiles@)
    }

    closed spec fn manufacturers(&self) -> Map<Seq<char>, ManufacturerProfile> {
        profiles_map(self.profiles@)
    }

    fn get_manufacturer<'a>(&'a self, id: &str) -> (r: Option<&'a ManufacturerProfile>) {
        match find_profile(&self.profiles, id) {
            Some(i) => {
                proof {
                    lemma_profiles_map_index(self.profiles@, i as int);
                }
                Some(&self.profiles[i])
            },
            None => {
                proof {
                    lemma_profiles_map_dom(self.profiles@, id@);
                }
                None
            },
        }
    }

    fn save_manufacturer(&mut self, profile: ManufacturerProfile) {
        match find_profile(&self.profiles, profile.id.as_str()) {
            Some(i) => {
                proof {
                    lemma_profiles_map_update(self.profiles@, i as int, profile);
                }
                self.profiles.set(i, profile);
            },
            None => {
                proof {
                    lemma_profiles_map_dom(self.profiles@, profile.id@);
                }
                self.profiles.push(profile);
                proof {
                    assert(self.profiles@.drop_last() =~= old(self).profiles@);
                }
            },
        }
    }
}

} // verus!
