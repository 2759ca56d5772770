//! The ordered, name-unique collection of favorites and its mutation
//! operations: insert-or-update, rename with collision checks, removal,
//! substring filtering and dangling-entry cleanup.

use vstd::prelude::*;

use crate::favorite_folder_record::{FavModel, FavoriteFolderPath};
use crate::text::{contains_sub, str_contains, str_eq};
use crate::trimmed_not_empty_text::NonEmptyText;
use vstd::pervasive::VecAdditionalExecFns;
use vstd::std_specs::cmp::PartialEqSpec;
use vstd::std_specs::iter::IteratorSpec;

verus! {

/// The models of a sequence of records.
pub open spec fn models_of(v: Seq<FavoriteFolderPath>) -> Seq<FavModel> {
    v.map_values(|f: FavoriteFolderPath| f@)
}

/// Index of the first record carrying `name`, or `-1` when none does.
pub open spec fn find_idx(s: Seq<FavModel>, name: Seq<char>) -> int
    decreases s.len(),
{
    if s.len() == 0 {
        -1
    } else if s[0].name == name {
        0
    } else {
        let rest = find_idx(s.drop_first(), name);
        if rest == -1 {
            -1
        } else {
            rest + 1
        }
    }
}

pub open spec fn contains_name(s: Seq<FavModel>, name: Seq<char>) -> bool {
    find_idx(s, name) >= 0
}

/// The record stored under `name`; meaningful when `contains_name` holds.
pub open spec fn lookup(s: Seq<FavModel>, name: Seq<char>) -> FavModel {
    s[find_idx(s, name)]
}

/// No two records share a name.
pub open spec fn unique_names(s: Seq<FavModel>) -> bool {
    forall|i: int, j: int| 0 <= i < j < s.len() ==> s[i].name != s[j].name
}

/// All records hold valid (trimmed, non-empty) texts.
pub open spec fn all_wf(s: Seq<FavModel>) -> bool {
    forall|i: int| 0 <= i < s.len() ==> (#[trigger] s[i]).wf()
}

proof fn lemma_find_idx_range(s: Seq<FavModel>, name: Seq<char>)
    ensures
        -1 <= find_idx(s, name) < s.len(),
    decreases s.len(),
{
    if s.len() > 0 && s[0].name != name {
        lemma_find_idx_range(s.drop_first(), name);
    }
}

proof fn lemma_find_idx_miss(s: Seq<FavModel>, name: Seq<char>, k: int)
    requires
        0 <= k < s.len(),
        find_idx(s, name) == -1 || k < find_idx(s, name),
    ensures
        s[k].name != name,
    decreases s.len(),
{
    if k > 0 {
        lemma_find_idx_range(s.drop_first(), name);
        lemma_find_idx_miss(s.drop_first(), name, k - 1);
        assert(s[k] == s.drop_first()[k - 1]);
    }
}

proof fn lemma_find_idx_hit(s: Seq<FavModel>, name: Seq<char>)
    requires
        find_idx(s, name) >= 0,
    ensures
        find_idx(s, name) < s.len(),
        s[find_idx(s, name)].name == name,
    decreases s.len(),
{
    if s.len() > 0 && s[0].name != name {
        lemma_find_idx_range(s.drop_first(), name);
        lemma_find_idx_hit(s.drop_first(), name);
        assert(s[find_idx(s, name)] == s.drop_first()[find_idx(s.drop_first(), name)]);
    }
}

/// `find_idx` finds the first record with the given name, exactly.
pub proof fn lemma_find_idx_props(s: Seq<FavModel>, name: Seq<char>)
    ensures
        -1 <= find_idx(s, name) < s.len(),
        find_idx(s, name) == -1 ==> forall|k: int|
            0 <= k < s.len() ==> (#[trigger] s[k]).name != name,
        find_idx(s, name) >= 0 ==> {
            &&& find_idx(s, name) < s.len()
            &&& s[find_idx(s, name)].name == name
            &&& forall|k: int| 0 <= k < find_idx(s, name) ==> (#[trigger] s[k]).name != name
        },
{
    lemma_find_idx_range(s, name);
    if find_idx(s, name) == -1 {
        assert forall|k: int| 0 <= k < s.len() implies (#[trigger] s[k]).name != name by {
            lemma_find_idx_miss(s, name, k);
        }
    } else {
        lemma_find_idx_hit(s, name);
        assert forall|k: int| 0 <= k < find_idx(s, name) implies (#[trigger] s[k]).name
            != name by {
            lemma_find_idx_miss(s, name, k);
        }
    }
}

/// What `insert` does to the model: replace the record under the same
/// name, or append a new one.
pub open spec fn spec_insert(s: Seq<FavModel>, m: FavModel) -> Seq<FavModel> {
    let i = find_idx(s, m.name);
    if i >= 0 {
        s.update(i, m)
    } else {
        s.push(m)
    }
}

/// Outcome of an insert: an existing name was given new data, or a new
/// record was appended.
#[derive(Debug, Clone, Copy, PartialEq, Eq, Structural)]
pub enum AfterInsertion {
    Changed,
    Added,
}

/// The dangling verdict `b` is one that `check` itself could have given
/// for the record's location.
pub open spec fn checked_against<F: Fn(&str) -> bool>(check: F, m: FavModel, b: bool) -> bool {
    exists|p: &str| #![auto] p@ == m.location && call_ensures(check, (p,), b)
}

/// The subsequence of `s` that a dangling-mask keeps: entry `i` survives
/// exactly when `dangling[i]` is false; relative order is preserved.
pub open spec fn mask_keep(s: Seq<FavModel>, dangling: Seq<bool>) -> Seq<FavModel>
    recommends
        dangling.len() == s.len(),
    decreases s.len(),
{
    if s.len() == 0 {
        Seq::empty()
    } else {
        let rest = mask_keep(s.drop_last(), dangling.drop_last());
        if dangling.len() > 0 && dangling.last() {
            rest
        } else {
            rest.push(s.last())
        }
    }
}

proof fn lemma_mask_keep_extend(s: Seq<FavModel>, ds: Seq<bool>, m: FavModel, b: bool)
    requires
        ds.len() == s.len(),
    ensures
        mask_keep(s.push(m), ds.push(b)) == (if b {
            mask_keep(s, ds)
        } else {
            mask_keep(s, ds).push(m)
        }),
{
    assert(s.push(m).drop_last() =~= s);
    assert(ds.push(b).drop_last() =~= ds);
}

proof fn lemma_mask_keep_props(s: Seq<FavModel>, ds: Seq<bool>)
    requires
        ds.len() == s.len(),
    ensures
        mask_keep(s, ds).len() <= s.len(),
        forall|k: int|
            0 <= k < mask_keep(s, ds).len() ==> s.contains(#[trigger] mask_keep(s, ds)[k]),
        unique_names(s) ==> unique_names(mask_keep(s, ds)),
        all_wf(s) ==> all_wf(mask_keep(s, ds)),
    decreases s.len(),
{
    if s.len() > 0 {
        let sd = s.drop_last();
        let dd = ds.drop_last();
        lemma_mask_keep_props(sd, dd);
        let rest = mask_keep(sd, dd);
        let out = mask_keep(s, ds);
        if unique_names(s) {
            assert(forall|i: int, j: int| 0 <= i < j < sd.len() ==> sd[i].name != sd[j].name);
        }
        if all_wf(s) {
            assert(forall|i: int| 0 <= i < sd.len() ==> (#[trigger] sd[i]).wf());
        }
        assert forall|k: int| 0 <= k < out.len() implies s.contains(#[trigger] out[k]) by {
            if ds.last() || k < out.len() - 1 {
                assert(sd.contains(rest[k]));
                let i = choose|i: int| 0 <= i < sd.len() && sd[i] == rest[k];
                assert(s[i] == out[k]);
            } else {
                assert(s[s.len() - 1] == out[k]);
            }
        }
        if unique_names(s) && !ds.last() {
            assert forall|i: int, j: int| 0 <= i < j < out.len() implies out[i].name
                != out[j].name by {
                if j == out.len() - 1 {
                    assert(sd.contains(rest[i]));
                    let ii = choose|ii: int| 0 <= ii < sd.len() && sd[ii] == rest[i];
                    assert(s[ii].name != s[s.len() - 1].name);
                }
            }
        }
    }
}

/// Cleaning by a mask computed from a pointwise dangling test keeps exactly
/// the records whose location the test clears, in their original order.
pub proof fn lemma_mask_keep_is_filter(
    s: Seq<FavModel>,
    ds: Seq<bool>,
    dangling: spec_fn(Seq<char>) -> bool,
)
    requires
        ds.len() == s.len(),
        forall|i: int| 0 <= i < s.len() ==> ds[i] == dangling((#[trigger] s[i]).location),
    ensures
        mask_keep(s, ds) == s.filter(|m: FavModel| !dangling(m.location)),
    decreases s.len(),
{
    reveal(Seq::filter);
    if s.len() > 0 {
        let sd = s.drop_last();
        let dd = ds.drop_last();
        assert(forall|i: int| 0 <= i < sd.len() ==> dd[i] == dangling((#[trigger] sd[i]).location));
        lemma_mask_keep_is_filter(sd, dd, dangling);
        assert(ds.last() == dangling(s.last().location));
    }
}

/// The ordered collection of favorites, keyed by unique record names.
#[derive(Debug)]
pub struct AllFavorites {
    favorites: Vec<FavoriteFolderPath>,
}

impl View for AllFavorites {
    type V = Seq<FavModel>;

    closed spec fn view(&self) -> Seq<FavModel> {
        models_of(self.favorites@)
    }
}

impl AllFavorites {
    /// The collection invariant: unique names, valid texts.
    pub open spec fn wf(&self) -> bool {
        unique_names(self@) && all_wf(self@)
    }

    pub fn new(folders: Vec<FavoriteFolderPath>) -> (r: Self)
        ensures
            r@ == models_of(folders@),
    {
        Self { favorites: folders }
    }

    /// An iterator over the records, for read-only consumption.
    pub fn iter(&self) -> (it: std::slice::Iter<'_, FavoriteFolderPath>)
        ensures
            it.remaining().map_values(|r: &FavoriteFolderPath| r@) == self@,
    {
        let it = self.favorites.as_slice().iter();
        proof {
            broadcast use vstd::std_specs::slice::axiom_spec_slice_iter;

            assert(it.remaining().map_values(|r: &FavoriteFolderPath| r@) =~= models_of(
                self.favorites@,
            ));
        }
        it
    }

    /// Read-only access for renderers.
    pub fn as_slice(&self) -> (r: &[FavoriteFolderPath])
        ensures
            models_of(r@) == self@,
    {
        self.favorites.as_slice()
    }

    /// Index of the record carrying exactly `name`, scanning in order.
    pub fn find_by_name_index(&self, name: &str) -> (r: Option<usize>)
        ensures
            match r {
                Some(i) => find_idx(self@, name@) == i,
                None => find_idx(self@, name@) == -1,
            },
    {
        let n = self.favorites.len();
        let mut i: usize = 0;
        while i < n
            invariant
                0 <= i <= n,
                n == self.favorites@.len(),
                self@.len() == n,
                forall|k: int| 0 <= k < i ==> (#[trigger] self@[k]).name != name@,
            decreases n - i,
        {
            if str_eq(self.favorites[i].get_name(), name) {
                proof {
                    assert(self@[i as int] == self.favorites@[i as int]@);
                    assert(self@[i as int].name == name@);
                    lemma_find_idx_props(self@, name@);
                    let fi = find_idx(self@, name@);
                    if fi != i {
                        if fi == -1 {
                            assert(self@[i as int].name != name@);
                        } else if fi < i {
                            assert(self@[fi].name != name@);
                        } else {
                            assert(self@[i as int].name != name@);
                        }
                    }
                }
                return Some(i);
            }
            proof {
                assert(self@[i as int] == self.favorites@[i as int]@);
            }
            i = i + 1;
        }
        proof {
            lemma_find_idx_props(self@, name@);
        }
        None
    }

    /// Inserts the record: replaces the whole record that shares its name
    /// and reports `Changed`, or appends it and reports `Added`.
    pub fn insert(&mut self, new_favorite: FavoriteFolderPath) -> (r: AfterInsertion)
        requires
            old(self).wf(),
            new_favorite.wf(),
        ensures
            final(self)@ == spec_insert(old(self)@, new_favorite@),
            r == AfterInsertion::Added <==> !contains_name(old(self)@, new_favorite@.name),
            final(self).wf(),
    {
        let found = self.find_by_name_index(new_favorite.get_name());
        proof {
            lemma_find_idx_props(self@, new_favorite@.name);
        }
        match found {
            Some(index) => {
                self.favorites.set(index, new_favorite);
                proof {
                    assert(self@ =~= spec_insert(old(self)@, new_favorite@));
                    assert(forall|k: int|
                        0 <= k < self@.len() && k != index ==> self@[k] == old(self)@[k]);
                    assert(self.wf());
                }
                AfterInsertion::Changed
            },
            None => {
                self.favorites.push(new_favorite);
                proof {
                    assert(self@ =~= spec_insert(old(self)@, new_favorite@));
                    assert(forall|k: int|
                        0 <= k < old(self)@.len() ==> self@[k] == old(self)@[k]);
                    assert(self.wf());
                }
                AfterInsertion::Added
            },
        }
    }

    /// Looks up the record stored under `name`.
    pub fn get(&self, name: NonEmptyText) -> (r: Option<&FavoriteFolderPath>)
        ensures
            match r {
                Some(f) => contains_name(self@, name@) && f@ == lookup(self@, name@),
                None => !contains_name(self@, name@),
            },
    {
        self.find_by_name(name.as_str())
    }

    fn find_by_name(&self, name: &str) -> (r: Option<&FavoriteFolderPath>)
        ensures
            match r {
                Some(f) => contains_name(self@, name@) && f@ == lookup(self@, name@),
                None => !contains_name(self@, name@),
            },
    {
        match self.find_by_name_index(name) {
            Some(index) => {
                proof {
                    lemma_find_idx_props(self@, name@);
                    assert(self@[index as int] == self.favorites@[index as int]@);
                }
                Some(&self.favorites[index])
            },
            None => None,
        }
    }

    /// Renames the record under `old_name` to `new_name`. Returns `false`
    /// and leaves the collection unchanged when `old_name` is absent, and
    /// also when `new_name` already labels a different record: renaming
    /// never creates a duplicate name.
    pub fn rename(&mut self, old_name: &NonEmptyText, new_name: NonEmptyText) -> (r: bool)
        requires
            old(self).wf(),
            new_name.wf(),
        ensures
            final(self).wf(),
            ({
                let i = find_idx(old(self)@, old_name@);
                let j = find_idx(old(self)@, new_name@);
                if i >= 0 && (j == -1 || j == i) {
                    r == true && final(self)@ == old(self)@.update(
                        i,
                        (FavModel { name: new_name@, location: old(self)@[i].location }),
                    )
                } else {
                    r == false && final(self)@ == old(self)@
                }
            }),
    {
        let found = self.find_by_name_index(old_name.as_str());
        proof {
            lemma_find_idx_props(self@, old_name@);
        }
        match found {
            None => false,
            Some(index) => {
                let collision = self.find_by_name_index(new_name.as_str());
                proof {
                    lemma_find_idx_props(self@, new_name@);
                }
                match collision {
                    Some(other) => {
                        if other != index {
                            return false;
                        }
                    },
                    None => {},
                }
                self.favorites[index].set_name(new_name);
                proof {
                    let target = FavModel {
                        name: new_name@,
                        location: old(self)@[index as int].location,
                    };
                    assert(self@ =~= old(self)@.update(index as int, target));
                    assert(forall|k: int|
                        0 <= k < self@.len() && k != index ==> self@[k] == old(self)@[k]);
                    assert(self.wf());
                }
                true
            },
        }
    }

    /// Removes the record under `name` if present; reports whether a
    /// removal happened. The collection shrinks by exactly one record on
    /// success and is untouched otherwise.
    pub fn remove_with_name(&mut self, name: &NonEmptyText) -> (r: bool)
        requires
            old(self).wf(),
        ensures
            final(self).wf(),
            ({
                let i = find_idx(old(self)@, name@);
                if i >= 0 {
                    r == true && final(self)@ == old(self)@.remove(i)
                } else {
                    r == false && final(self)@ == old(self)@
                }
            }),
    {
        let found = self.find_by_name_index(name.as_str());
        proof {
            lemma_find_idx_props(self@, name@);
        }
        match found {
            None => false,
            Some(index) => {
                self.favorites.remove(index);
                proof {
                    assert(self@ =~= old(self)@.remove(index as int));
                    assert forall|i: int, j: int| 0 <= i < j < self@.len() implies self@[i].name
                        != self@[j].name by {
                        let oi = if i < index {
                            i
                        } else {
                            i + 1
                        };
                        let oj = if j < index {
                            j
                        } else {
                            j + 1
                        };
                        assert(self@[i] == old(self)@[oi]);
                        assert(self@[j] == old(self)@[oj]);
                    }
                    assert forall|k: int| 0 <= k < self@.len() implies (#[trigger] self@[k]).wf() by {
                        let ok = if k < index {
                            k
                        } else {
                            k + 1
                        };
                        assert(self@[k] == old(self)@[ok]);
                        assert(old(self)@[ok].wf());
                    }
                }
                true
            },
        }
    }

    /// Consumes the collection and keeps, in order, exactly the records
    /// whose name contains `name` as a substring.
    pub fn filtered_containing_name(self, name: NonEmptyText) -> (r: AllFavorites)
        ensures
            r@ == self@.filter(|m: FavModel| contains_sub(m.name, name@)),
            self.wf() ==> r.wf(),
    {
        let ghost pred = |m: FavModel| contains_sub(m.name, name@);
        let n = self.favorites.len();
        let mut kept: Vec<FavoriteFolderPath> = Vec::new();
        let mut idx: usize = 0;
        while idx < n
            invariant
                0 <= idx <= n,
                n == self.favorites@.len(),
                self@.len() == n,
                pred == (|m: FavModel| contains_sub(m.name, name@)),
                models_of(kept@) == self@.subrange(0, idx as int).filter(pred),
            decreases n - idx,
        {
            let rec = &self.favorites[idx];
            proof {
                assert(self@[idx as int] == self.favorites@[idx as int]@);
            }
            let keep_it = str_contains(rec.get_name(), name.as_str());
            if keep_it {
                kept.push(rec.clone());
            }
            proof {
                reveal(Seq::filter);
                let prefix = self@.subrange(0, idx as int);
                let prefix1 = self@.subrange(0, idx + 1);
                assert(prefix1.drop_last() =~= prefix);
                assert(prefix1.last() == self@[idx as int]);
                if keep_it {
                    assert(models_of(kept@) =~= prefix.filter(pred).push(self@[idx as int]));
                    assert(models_of(kept@) == prefix1.filter(pred));
                } else {
                    assert(models_of(kept@) == prefix1.filter(pred));
                }
            }
            idx = idx + 1;
        }
        proof {
            assert(self@.subrange(0, n as int) =~= self@);
        }
        let r = AllFavorites { favorites: kept };
        proof {
            if self.wf() {
                lemma_filter_keeps_wf(self@, pred);
            }
        }
        r
    }

    /// Removes, in place, every record whose location the supplied check
    /// reports as dangling. The check is caller-supplied so the collection
    /// itself touches no filesystem; whatever the check answered for each
    /// record decides exactly which records stay, in their original order.
    pub fn clean_all_dangling<F: Fn(&str) -> bool>(&mut self, on_is_dangling_check: F)
        requires
            old(self).wf(),
            forall|p: &str| #[trigger] call_requires(on_is_dangling_check, (p,)),
        ensures
            final(self).wf(),
            exists|ds: Seq<bool>|
                {
                    &&& ds.len() == old(self)@.len()
                    &&& #[trigger] mask_keep(old(self)@, ds) == final(self)@
                    &&& forall|k: int|
                        0 <= k < ds.len() ==> #[trigger] checked_against(
                            on_is_dangling_check,
                            old(self)@[k],
                            ds[k],
                        )
                },
    {
        let n = self.favorites.len();
        let mut kept: Vec<FavoriteFolderPath> = Vec::new();
        let ghost mut ds: Seq<bool> = Seq::empty();
        let mut idx: usize = 0;
        while idx < n
            invariant
                0 <= idx <= n,
                n == self.favorites@.len(),
                self@.len() == n,
                self@ == old(self)@,
                ds.len() == idx,
                models_of(kept@) == mask_keep(self@.subrange(0, idx as int), ds),
                forall|k: int|
                    0 <= k < idx ==> #[trigger] checked_against(
                        on_is_dangling_check,
                        self@[k],
                        ds[k],
                    ),
                forall|p: &str| #[trigger] call_requires(on_is_dangling_check, (p,)),
            decreases n - idx,
        {
            let rec = &self.favorites[idx];
            proof {
                assert(self@[idx as int] == self.favorites@[idx as int]@);
            }
            let path_ref = rec.path_str();
            let dangling = on_is_dangling_check(path_ref);
            if !dangling {
                kept.push(rec.clone());
            }
            proof {
                let prefix = self@.subrange(0, idx as int);
                let prefix1 = self@.subrange(0, idx + 1);
                assert(prefix1 =~= prefix.push(self@[idx as int]));
                lemma_mask_keep_extend(prefix, ds, self@[idx as int], dangling);
                if !dangling {
                    assert(models_of(kept@) =~= mask_keep(prefix, ds).push(self@[idx as int]));
                }
                ds = ds.push(dangling);
                assert(models_of(kept@) == mask_keep(prefix1, ds));
                assert(checked_against(on_is_dangling_check, self@[idx as int], dangling));
            }
            idx = idx + 1;
        }
        proof {
            assert(self@.subrange(0, n as int) =~= self@);
        }
        self.favorites = kept;
        proof {
            lemma_mask_keep_props(old(self)@, ds);
            assert(mask_keep(old(self)@, ds) == final(self)@);
        }
    }
}

proof fn lemma_find_idx_same_names(s: Seq<FavModel>, t: Seq<FavModel>, name: Seq<char>)
    requires
        s.len() == t.len(),
        forall|k: int| 0 <= k < s.len() ==> (#[trigger] s[k]).name == t[k].name,
    ensures
        find_idx(s, name) == find_idx(t, name),
    decreases s.len(),
{
    if s.len() > 0 && s[0].name != name {
        let sd = s.drop_first();
        let td = t.drop_first();
        assert(forall|k: int| 0 <= k < sd.len() ==> (#[trigger] sd[k]).name == td[k].name);
        lemma_find_idx_same_names(sd, td, name);
    }
}

proof fn lemma_find_idx_push_other(s: Seq<FavModel>, m: FavModel, name: Seq<char>)
    requires
        name != m.name,
    ensures
        find_idx(s.push(m), name) == find_idx(s, name),
    decreases s.len(),
{
    let t = s.push(m);
    if s.len() == 0 {
        assert(t.drop_first() =~= Seq::<FavModel>::empty());
        assert(find_idx(t, name) == -1) by {
            reveal_with_fuel(find_idx, 2);
        }
    } else {
        assert(t[0] == s[0]);
        if s[0].name != name {
            assert(t.drop_first() =~= s.drop_first().push(m));
            lemma_find_idx_range(s.drop_first(), name);
            lemma_find_idx_push_other(s.drop_first(), m, name);
        }
    }
}

proof fn lemma_find_idx_push_new(s: Seq<FavModel>, m: FavModel)
    requires
        find_idx(s, m.name) == -1,
    ensures
        find_idx(s.push(m), m.name) == s.len(),
    decreases s.len(),
{
    let t = s.push(m);
    if s.len() == 0 {
        assert(t[0] == m);
    } else {
        assert(s[0].name != m.name);
        assert(t[0] == s[0]);
        assert(t.drop_first() =~= s.drop_first().push(m));
        lemma_find_idx_range(s.drop_first(), m.name);
        lemma_find_idx_push_new(s.drop_first(), m);
    }
}

/// Law: inserting `m` leaves exactly one record under `m.name`, holding
/// exactly the fields of `m`, while every other name keeps exactly the
/// record it had (or stays absent). Since `m.name` is present afterwards,
/// a later insert under the same name finds it and reports `Changed`, so
/// over any sequence of inserts each distinct name is `Added` exactly once
/// and the collection ends up holding the most recent fields per name.
pub proof fn lemma_insert_tracks_latest(s: Seq<FavModel>, m: FavModel)
    requires
        unique_names(s),
    ensures
        unique_names(spec_insert(s, m)),
        contains_name(spec_insert(s, m), m.name),
        lookup(spec_insert(s, m), m.name) == m,
        forall|other: Seq<char>|
            other != m.name ==> #[trigger] find_idx(spec_insert(s, m), other) == find_idx(s, other),
        forall|other: Seq<char>|
            other != m.name && contains_name(s, other) ==> #[trigger] lookup(spec_insert(s, m), other)
                == lookup(s, other),
{
    lemma_find_idx_props(s, m.name);
    let i = find_idx(s, m.name);
    let t = spec_insert(s, m);
    if i >= 0 {
        assert(t == s.update(i, m));
        assert(forall|k: int| 0 <= k < s.len() ==> (#[trigger] s[k]).name == t[k].name);
        assert forall|other: Seq<char>| true implies #[trigger] find_idx(t, other) == find_idx(
            s,
            other,
        ) by {
            lemma_find_idx_same_names(s, t, other);
        }
        assert forall|other: Seq<char>|
            other != m.name && contains_name(s, other) implies #[trigger] lookup(t, other)
            == lookup(s, other) by {
            lemma_find_idx_props(s, other);
            assert(find_idx(s, other) != i);
        }
    } else {
        assert(t == s.push(m));
        lemma_find_idx_push_new(s, m);
        assert(t[s.len() as int] == m);
        assert forall|other: Seq<char>| other != m.name implies #[trigger] find_idx(t, other)
            == find_idx(s, other) by {
            lemma_find_idx_push_other(s, m, other);
        }
        assert forall|other: Seq<char>|
            other != m.name && contains_name(s, other) implies #[trigger] lookup(t, other)
            == lookup(s, other) by {
            lemma_find_idx_push_other(s, m, other);
            lemma_find_idx_props(s, other);
        }
        assert forall|a: int, b: int| 0 <= a < b < t.len() implies t[a].name != t[b].name by {
            if b == s.len() {
                lemma_find_idx_miss(s, m.name, a);
            }
        }
    }
}

proof fn lemma_filter_elems(s: Seq<FavModel>, pred: spec_fn(FavModel) -> bool, k: int)
    requires
        0 <= k < s.filter(pred).len(),
    ensures
        s.contains(s.filter(pred)[k]),
    decreases s.len(),
{
    reveal(Seq::filter);
    if s.len() > 0 {
        let sd = s.drop_last();
        if pred(s.last()) && k == s.filter(pred).len() - 1 {
            assert(s[s.len() - 1] == s.filter(pred)[k]);
        } else {
            lemma_filter_elems(sd, pred, k);
            let i = choose|i: int| 0 <= i < sd.len() && sd[i] == sd.filter(pred)[k];
            assert(s[i] == s.filter(pred)[k]);
        }
    }
}

impl PartialEq for AllFavorites {
    fn eq(&self, other: &Self) -> (r: bool) {
        let r = self.favorites == other.favorites;
        proof {
            if r {
                assert(self@ =~= other@);
            } else {
                if self@ == other@ {
                    assert(self@.len() == self.favorites@.len());
                    assert(other@.len() == other.favorites@.len());
                    assert(self.favorites@.len() == other.favorites@.len());
                    assert forall|i: int| 0 <= i < self.favorites@.len() implies (
                    #[trigger] self.favorites@[i]).eq_spec(&other.favorites@[i]) by {
                        assert(self@[i] == other@[i]);
                    }
                }
            }
        }
        r
    }
}

impl Eq for AllFavorites {

}

impl vstd::std_specs::cmp::PartialEqSpecImpl for AllFavorites {
    open spec fn obeys_eq_spec() -> bool {
        true
    }

    open spec fn eq_spec(&self, other: &Self) -> bool {
        self@ == other@
    }
}

proof fn lemma_filter_keeps_wf(s: Seq<FavModel>, pred: spec_fn(FavModel) -> bool)
    requires
        unique_names(s),
        all_wf(s),
    ensures
        unique_names(s.filter(pred)),
        all_wf(s.filter(pred)),
    decreases s.len(),
{
    reveal(Seq::filter);
    if s.len() > 0 {
        let sd = s.drop_last();
        assert(forall|i: int, j: int| 0 <= i < j < sd.len() ==> sd[i].name != sd[j].name);
        assert(forall|i: int| 0 <= i < sd.len() ==> (#[trigger] sd[i]).wf());
        lemma_filter_keeps_wf(sd, pred);
        let rest = sd.filter(pred);
        let out = s.filter(pred);
        if pred(s.last()) {
            assert forall|i: int, j: int| 0 <= i < j < out.len() implies out[i].name
                != out[j].name by {
                if j == out.len() - 1 {
                    assert(out[i] == rest[i]);
                    lemma_filter_elems(sd, pred, i);
                    let ii = choose|ii: int| 0 <= ii < sd.len() && sd[ii] == rest[i];
                    assert(s[ii].name != s[s.len() - 1].name);
                } else {
                    assert(out[i] == rest[i] && out[j] == rest[j]);
                }
            }
            assert forall|k: int| 0 <= k < out.len() implies (#[trigger] out[k]).wf() by {
                if k < out.len() - 1 {
                    assert(out[k] == rest[k]);
                    assert(rest[k].wf());
                } else {
                    assert(out[k] == s.last());
                    assert(s[s.len() - 1].wf());
                }
            }
        }
    }
}

} // verus!
