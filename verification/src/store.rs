//! In-memory models of the two storage mediums: the relational metadata store
//! (user and recipe rows, with store-assigned ids and single-statement
//! conditional updates) and the blob store (recipe bodies keyed by row id and
//! images keyed by generated tokens). Mutating operations take an injected
//! failure flag so callers can state — and the engine can prove — what holds
//! on every partial-failure outcome. The real adapters around this library
//! perform the same statements against a relational engine and a filesystem.

use vstd::prelude::*;
use vstd::pervasive::VecAdditionalExecFns;
use crate::recipe::{RecipeBody, RecipeBodyV};

verus! {

/// A stored user account row.
#[derive(Debug)]
pub struct UserRow {
    pub id: i32,
    pub name: String,
    pub hash: String,
    pub deleted: bool,
    pub created_at: i64,
}

/// Mathematical model of a user row.
#[verifier::ext_equal]
pub struct UserRowV {
    pub id: i32,
    pub name: Seq<char>,
    pub hash: Seq<char>,
    pub deleted: bool,
    pub created_at: i64,
}

impl View for UserRow {
    type V = UserRowV;

    open spec fn view(&self) -> UserRowV {
        UserRowV {
            id: self.id,
            name: self.name@,
            hash: self.hash@,
            deleted: self.deleted,
            created_at: self.created_at,
        }
    }
}

impl Clone for UserRow {
    fn clone(&self) -> (r: Self)
        ensures
            r@ == self@,
    {
        UserRow {
            id: self.id,
            name: self.name.clone(),
            hash: self.hash.clone(),
            deleted: self.deleted,
            created_at: self.created_at,
        }
    }
}

/// A stored recipe metadata row.
#[derive(Debug)]
pub struct RecipeRow {
    pub id: i32,
    pub name: String,
    pub description: Option<String>,
    pub author: i32,
    pub image: Option<String>,
    pub deleted: bool,
    pub created_at: i64,
    pub edited_at: Option<i64>,
}

/// Mathematical model of a recipe metadata row.
#[verifier::ext_equal]
pub struct RecipeRowV {
    pub id: i32,
    pub name: Seq<char>,
    pub description: Option<Seq<char>>,
    pub author: i32,
    pub image: Option<Seq<char>>,
    pub deleted: bool,
    pub created_at: i64,
    pub edited_at: Option<i64>,
}

/// The view of an optional owned string.
pub open spec fn opt_view(o: Option<String>) -> Option<Seq<char>> {
    match o {
        Some(s) => Some(s@),
        None => None,
    }
}

impl View for RecipeRow {
    type V = RecipeRowV;

    open spec fn view(&self) -> RecipeRowV {
        RecipeRowV {
            id: self.id,
            name: self.name@,
            description: opt_view(self.description),
            author: self.author,
            image: opt_view(self.image),
            deleted: self.deleted,
            created_at: self.created_at,
            edited_at: self.edited_at,
        }
    }
}

fn clone_opt_string(o: &Option<String>) -> (r: Option<String>)
    ensures
        opt_view(r) == opt_view(*o),
{
    match o {
        Some(s) => Some(s.clone()),
        None => None,
    }
}

impl Clone for RecipeRow {
    fn clone(&self) -> (r: Self)
        ensures
            r@ == self@,
    {
        RecipeRow {
            id: self.id,
            name: self.name.clone(),
            description: clone_opt_string(&self.description),
            author: self.author,
            image: clone_opt_string(&self.image),
            deleted: self.deleted,
            created_at: self.created_at,
            edited_at: self.edited_at,
        }
    }
}

// Lookups over the modelled user table.

pub open spec fn has_user(users: Seq<UserRowV>, id: i32) -> bool {
    exists|i: int| 0 <= i < users.len() && users[i].id == id
}

pub open spec fn user_index(users: Seq<UserRowV>, id: i32) -> int {
    choose|i: int| 0 <= i < users.len() && users[i].id == id
}

/// The user row with the given id, if any.
pub open spec fn user_at(users: Seq<UserRowV>, id: i32) -> Option<UserRowV> {
    if has_user(users, id) {
        Some(users[user_index(users, id)])
    } else {
        None
    }
}

pub open spec fn has_user_named(users: Seq<UserRowV>, name: Seq<char>) -> bool {
    exists|i: int| 0 <= i < users.len() && !users[i].deleted && users[i].name == name
}

pub open spec fn user_named_index(users: Seq<UserRowV>, name: Seq<char>) -> int {
    choose|i: int| 0 <= i < users.len() && !users[i].deleted && users[i].name == name
}

/// The non-deleted user row with the given name, if any. Well-formedness makes
/// it unique.
pub open spec fn user_named(users: Seq<UserRowV>, name: Seq<char>) -> Option<UserRowV> {
    if has_user_named(users, name) {
        Some(users[user_named_index(users, name)])
    } else {
        None
    }
}

// Lookups over the modelled recipe table.

pub open spec fn has_recipe(recipes: Seq<RecipeRowV>, id: i32) -> bool {
    exists|i: int| 0 <= i < recipes.len() && recipes[i].id == id
}

pub open spec fn recipe_index(recipes: Seq<RecipeRowV>, id: i32) -> int {
    choose|i: int| 0 <= i < recipes.len() && recipes[i].id == id
}

/// The recipe row with the given id, if any.
pub open spec fn recipe_at(recipes: Seq<RecipeRowV>, id: i32) -> Option<RecipeRowV> {
    if has_recipe(recipes, id) {
        Some(recipes[recipe_index(recipes, id)])
    } else {
        None
    }
}

/// The relational metadata store: two tables of rows with store-assigned ids.
pub struct MetadataStore {
    pub users: Vec<UserRow>,
    pub recipes: Vec<RecipeRow>,
    pub next_user_id: i32,
    pub next_recipe_id: i32,
}

/// Mathematical model of the metadata store.
#[verifier::ext_equal]
pub struct MetadataStoreV {
    pub users: Seq<UserRowV>,
    pub recipes: Seq<RecipeRowV>,
    pub next_user_id: i32,
    pub next_recipe_id: i32,
}

impl View for MetadataStore {
    type V = MetadataStoreV;

    open spec fn view(&self) -> MetadataStoreV {
        MetadataStoreV {
            users: self.users@.map_values(|u: UserRow| u@),
            recipes: self.recipes@.map_values(|r: RecipeRow| r@),
            next_user_id: self.next_user_id,
            next_recipe_id: self.next_recipe_id,
        }
    }
}

/// Invariants the relational engine enforces: positive, unique, monotonically
/// assigned ids; unique names among non-deleted users; every recipe's author
/// references a user row (user rows are never removed, only flagged deleted).
pub open spec fn wf_meta(m: MetadataStoreV) -> bool {
    &&& 0 < m.next_user_id
    &&& 0 < m.next_recipe_id
    &&& forall|i: int| 0 <= i < m.users.len() ==> 0 < #[trigger] m.users[i].id < m.next_user_id
    &&& forall|i: int, j: int| #![trigger m.users[i], m.users[j]]
        0 <= i < j < m.users.len() ==> m.users[i].id != m.users[j].id
    &&& forall|i: int, j: int| #![trigger m.users[i], m.users[j]]
        0 <= i < j < m.users.len() && !m.users[i].deleted && !m.users[j].deleted
            ==> m.users[i].name != m.users[j].name
    &&& forall|i: int|
        0 <= i < m.recipes.len() ==> 0 < #[trigger] m.recipes[i].id < m.next_recipe_id
    &&& forall|i: int, j: int| #![trigger m.recipes[i], m.recipes[j]]
        0 <= i < j < m.recipes.len() ==> m.recipes[i].id != m.recipes[j].id
    &&& forall|i: int| 0 <= i < m.recipes.len() ==> has_user(m.users, #[trigger] m.recipes[i].author)
}

impl MetadataStore {
    pub open spec fn wf(&self) -> bool {
        wf_meta(self@)
    }

    /// An empty store, as a fresh relational schema provides it.
    pub fn new() -> (r: Self)
        ensures
            r@.users == Seq::<UserRowV>::empty(),
            r@.recipes == Seq::<RecipeRowV>::empty(),
            r@.next_user_id == 1,
            r@.next_recipe_id == 1,
            r.wf(),
    {
        let r = MetadataStore { users: Vec::new(), recipes: Vec::new(), next_user_id: 1, next_recipe_id: 1 };
        proof {
            assert(r@.users =~= Seq::<UserRowV>::empty());
            assert(r@.recipes =~= Seq::<RecipeRowV>::empty());
        }
        r
    }

    /// `select * from users where id = $1`.
    pub fn get_user(&self, id: i32) -> (r: Option<&UserRow>)
        requires
            self.wf(),
        ensures
            r matches Some(u) ==> user_at(self@.users, id) == Some(u@),
            r is None ==> user_at(self@.users, id) is None,
    {
        let mut i: usize = 0;
        while i < self.users.len()
            invariant
                self.wf(),
                i <= self.users.len(),
                forall|j: int| 0 <= j < i ==> self@.users[j].id != id,
            decreases self.users.len() - i,
        {
            if self.users[i].id == id {
                proof {
                    let k = user_index(self@.users, id);
                    assert(self@.users[i as int].id == id);
                    assert(has_user(self@.users, id));
                    assert(0 <= k < self@.users.len() && self@.users[k].id == id);
                    assert(k == i as int);
                }
                return Some(&self.users[i]);
            }
            i += 1;
        }
        proof {
            assert(!has_user(self@.users, id));
        }
        None
    }

    /// `select * from users where name = $1 and deleted = false`.
    pub fn get_user_named(&self, name: &String) -> (r: Option<&UserRow>)
        requires
            self.wf(),
        ensures
            r matches Some(u) ==> user_named(self@.users, name@) == Some(u@),
            r is None ==> user_named(self@.users, name@) is None,
    {
        let mut i: usize = 0;
        while i < self.users.len()
            invariant
                self.wf(),
                i <= self.users.len(),
                forall|j: int| 0 <= j < i
                    ==> (self@.users[j].deleted || self@.users[j].name != name@),
            decreases self.users.len() - i,
        {
            if !self.users[i].deleted && self.users[i].name == *name {
                proof {
                    let k = user_named_index(self@.users, name@);
                    assert(!self@.users[i as int].deleted && self@.users[i as int].name == name@);
                    assert(has_user_named(self@.users, name@));
                    assert(0 <= k < self@.users.len() && !self@.users[k].deleted
                        && self@.users[k].name == name@);
                    assert(k == i as int);
                }
                return Some(&self.users[i]);
            }
            i += 1;
        }
        proof {
            assert(!has_user_named(self@.users, name@));
        }
        None
    }

    /// `select * from recipes where id = $1`.
    pub fn get_recipe(&self, id: i32) -> (r: Option<&RecipeRow>)
        requires
            self.wf(),
        ensures
            r matches Some(row) ==> recipe_at(self@.recipes, id) == Some(row@),
            r is None ==> recipe_at(self@.recipes, id) is None,
    {
        let mut i: usize = 0;
        while i < self.recipes.len()
            invariant
                self.wf(),
                i <= self.recipes.len(),
                forall|j: int| 0 <= j < i ==> self@.recipes[j].id != id,
            decreases self.recipes.len() - i,
        {
            if self.recipes[i].id == id {
                proof {
                    let k = recipe_index(self@.recipes, id);
                    assert(self@.recipes[i as int].id == id);
                    assert(has_recipe(self@.recipes, id));
                    assert(0 <= k < self@.recipes.len() && self@.recipes[k].id == id);
                    assert(k == i as int);
                }
                return Some(&self.recipes[i]);
            }
            i += 1;
        }
        proof {
            assert(!has_recipe(self@.recipes, id));
        }
        None
    }

    /// `insert into users (name, hash) values ($1, $2)`, with the id assigned
    /// by the store; the caller has already ruled out a duplicate non-deleted
    /// name (the relational unique index would reject it).
    pub fn insert_user(&mut self, name: String, hash: String, now: i64, fail: bool) -> (r: Result<
        i32,
        (),
    >)
        requires
            old(self).wf(),
            old(self)@.next_user_id < i32::MAX,
            !has_user_named(old(self)@.users, name@),
        ensures
            final(self).wf(),
            fail ==> r is Err && final(self)@ == old(self)@,
            !fail ==> r == Ok::<i32, ()>(old(self)@.next_user_id) && final(self)@.users == old(self)@.users.push(
                (UserRowV {
                    id: old(self)@.next_user_id,
                    name: name@,
                    hash: hash@,
                    deleted: false,
                    created_at: now,
                }),
            ) && final(self)@.recipes == old(self)@.recipes && final(self)@.next_user_id == old(self)@.next_user_id + 1 && final(self)@.next_recipe_id == old(self)@.next_recipe_id,
    {
        if fail {
            return Err(());
        }
        let id = self.next_user_id;
        self.users.push(UserRow { id, name, hash, deleted: false, created_at: now });
        self.next_user_id = self.next_user_id + 1;
        proof {
            let prev = old(self)@.users;
            assert(self@.users =~= prev.push(self@.users.last()));
            assert(self@.recipes =~= old(self)@.recipes);
            assert forall|i: int| 0 <= i < self@.recipes.len() implies has_user(
                self@.users,
                #[trigger] self@.recipes[i].author,
            ) by {
                let k = choose|k: int|
                    0 <= k < prev.len() && prev[k].id == self@.recipes[i].author;
                assert(self@.users[k].id == self@.recipes[i].author);
            }
        }
        Ok(id)
    }

    /// `insert into recipes (name, description, author, image) values (...)`,
    /// with the id assigned by the store.
    pub fn insert_recipe(
        &mut self,
        name: String,
        description: Option<String>,
        author: i32,
        image: Option<String>,
        now: i64,
        fail: bool,
    ) -> (r: Result<i32, ()>)
        requires
            old(self).wf(),
            old(self)@.next_recipe_id < i32::MAX,
            has_user(old(self)@.users, author),
        ensures
            final(self).wf(),
            fail ==> r is Err && final(self)@ == old(self)@,
            !fail ==> r == Ok::<i32, ()>(old(self)@.next_recipe_id) && final(self)@.recipes == old(self)@.recipes.push(
                (RecipeRowV {
                    id: old(self)@.next_recipe_id,
                    name: name@,
                    description: opt_view(description),
                    author,
                    image: opt_view(image),
                    deleted: false,
                    created_at: now,
                    edited_at: None,
                }),
            ) && final(self)@.users == old(self)@.users && final(self)@.next_recipe_id == old(self)@.next_recipe_id + 1 && final(self)@.next_user_id == old(self)@.next_user_id,
    {
        if fail {
            return Err(());
        }
        let id = self.next_recipe_id;
        self.recipes.push(
            RecipeRow {
                id,
                name,
                description,
                author,
                image,
                deleted: false,
                created_at: now,
                edited_at: None,
            },
        );
        self.next_recipe_id = self.next_recipe_id + 1;
        proof {
            assert(self@.recipes =~= old(self)@.recipes.push(self@.recipes.last()));
            assert(self@.users =~= old(self)@.users);
        }
        Ok(id)
    }

    /// `delete from recipes where id = $1`: the hard delete used only as the
    /// create saga's compensation for a just-inserted row.
    pub fn remove_recipe(&mut self, id: i32)
        requires
            old(self).wf(),
        ensures
            final(self).wf(),
            has_recipe(old(self)@.recipes, id) ==> final(self)@.recipes == old(self)@.recipes.remove(recipe_index(old(self)@.recipes, id)),
            !has_recipe(old(self)@.recipes, id) ==> final(self)@ == old(self)@,
            final(self)@.users == old(self)@.users,
            final(self)@.next_user_id == old(self)@.next_user_id,
            final(self)@.next_recipe_id == old(self)@.next_recipe_id,
    {
        let mut i: usize = 0;
        while i < self.recipes.len()
            invariant
                self.wf(),
                i <= self.recipes.len(),
                self@ == old(self)@,
                forall|j: int| 0 <= j < i ==> self@.recipes[j].id != id,
            decreases self.recipes.len() - i,
        {
            if self.recipes[i].id == id {
                proof {
                    let k = recipe_index(self@.recipes, id);
                    assert(self@.recipes[i as int].id == id);
                    assert(has_recipe(self@.recipes, id));
                    assert(0 <= k < self@.recipes.len() && self@.recipes[k].id == id);
                    assert(k == i as int);
                }
                self.recipes.remove(i);
                proof {
                    assert(self@.users =~= old(self)@.users);
                    assert(self@.next_user_id == old(self)@.next_user_id);
                    assert(self@.next_recipe_id == old(self)@.next_recipe_id);
                    assert(self@.recipes =~= old(self)@.recipes.remove(i as int));
                    let newr = self@.recipes;
                    let oldr = old(self)@.recipes;
                    assert forall|a: int| 0 <= a < newr.len() implies 0 < (#[trigger] newr[a]).id
                        < self@.next_recipe_id && has_user(self@.users, newr[a].author) by {
                        if a < i as int {
                            assert(newr[a] == oldr[a]);
                        } else {
                            assert(newr[a] == oldr[a + 1]);
                        }
                    }
                    assert forall|a: int, b: int| #![trigger newr[a], newr[b]]
                        0 <= a < b < newr.len() implies newr[a].id != newr[b].id by {
                        let a0: int = if a < i as int { a } else { a + 1 };
                        let b0: int = if b < i as int { b } else { b + 1 };
                        assert(newr[a] == oldr[a0]);
                        assert(newr[b] == oldr[b0]);
                    }
                }
                return ;
            }
            i += 1;
        }
        proof {
            assert(!has_recipe(self@.recipes, id));
        }
    }

    /// `update recipes set deleted = true where id = $1 and author = $2 and
    /// deleted = false`, the single-statement race-free conditional soft
    /// delete; returns whether a row was affected.
    pub fn set_recipe_deleted(&mut self, id: i32, author: i32) -> (r: bool)
        requires
            old(self).wf(),
        ensures
            final(self).wf(),
            r == deletable(old(self)@.recipes, id, author),
            r ==> final(self)@.recipes == old(self)@.recipes.update(
                recipe_index(old(self)@.recipes, id),
                mark_recipe_deleted(old(self)@.recipes[recipe_index(old(self)@.recipes, id)]),
            ),
            !r ==> final(self)@ == old(self)@,
            final(self)@.users == old(self)@.users,
            final(self)@.next_user_id == old(self)@.next_user_id,
            final(self)@.next_recipe_id == old(self)@.next_recipe_id,
    {
        let mut i: usize = 0;
        while i < self.recipes.len()
            invariant
                self.wf(),
                i <= self.recipes.len(),
                self@ == old(self)@,
                forall|j: int| 0 <= j < i ==> self@.recipes[j].id != id,
            decreases self.recipes.len() - i,
        {
            if self.recipes[i].id == id {
                proof {
                    let k = recipe_index(self@.recipes, id);
                    assert(self@.recipes[i as int].id == id);
                    assert(has_recipe(self@.recipes, id));
                    assert(0 <= k < self@.recipes.len() && self@.recipes[k].id == id);
                    assert(k == i as int);
                }
                if self.recipes[i].deleted || self.recipes[i].author != author {
                    return false;
                }
                let mut row = self.recipes[i].clone();
                row.deleted = true;
                self.recipes.set(i, row);
                proof {
                    assert(self@.recipes =~= old(self)@.recipes.update(
                        i as int,
                        mark_recipe_deleted(old(self)@.recipes[i as int]),
                    ));
                }
                return true;
            }
            i += 1;
        }
        proof {
            assert(!has_recipe(self@.recipes, id));
        }
        false
    }

    /// `update recipes set name = $1, description = $2, editedat = $3 where
    /// id = $4`, leaving every other column as it was.
    pub fn update_recipe_meta(
        &mut self,
        id: i32,
        name: String,
        description: Option<String>,
        now: i64,
        fail: bool,
    ) -> (r: Result<(), ()>)
        requires
            old(self).wf(),
            has_recipe(old(self)@.recipes, id),
        ensures
            final(self).wf(),
            fail ==> r is Err && final(self)@ == old(self)@,
            !fail ==> r is Ok && final(self)@.recipes == old(self)@.recipes.update(
                recipe_index(old(self)@.recipes, id),
                edit_recipe_meta(
                    old(self)@.recipes[recipe_index(old(self)@.recipes, id)],
                    name@,
                    opt_view(description),
                    now,
                ),
            ),
            final(self)@.users == old(self)@.users,
            final(self)@.next_user_id == old(self)@.next_user_id,
            final(self)@.next_recipe_id == old(self)@.next_recipe_id,
    {
        if fail {
            return Err(());
        }
        let mut i: usize = 0;
        while i < self.recipes.len()
            invariant
                !fail,
                self.wf(),
                i <= self.recipes.len(),
                self@ == old(self)@,
                has_recipe(self@.recipes, id),
                forall|j: int| 0 <= j < i ==> self@.recipes[j].id != id,
            decreases self.recipes.len() - i,
        {
            if self.recipes[i].id == id {
                proof {
                    let k = recipe_index(self@.recipes, id);
                    assert(self@.recipes[i as int].id == id);
                    assert(0 <= k < self@.recipes.len() && self@.recipes[k].id == id);
                    assert(k == i as int);
                }
                let mut row = self.recipes[i].clone();
                row.name = name;
                row.description = description;
                row.edited_at = Some(now);
                self.recipes.set(i, row);
                proof {
                    assert(self@.recipes =~= old(self)@.recipes.update(
                        i as int,
                        edit_recipe_meta(
                            old(self)@.recipes[i as int],
                            name@,
                            opt_view(description),
                            now,
                        ),
                    ));
                    assert(forall|a: int|
                        0 <= a < self@.recipes.len() ==> (#[trigger] self@.recipes[a]).id == old(
                            self,
                        )@.recipes[a].id && self@.recipes[a].author == old(self)@.recipes[a].author);
                }
                return Ok(());
            }
            i += 1;
        }
        proof {
            assert(!has_recipe(self@.recipes, id));
            assert(false);
        }
        Ok(())
    }

    /// `update users set deleted = true where id = $1 and deleted = false`;
    /// returns whether a row was affected.
    pub fn set_user_deleted(&mut self, id: i32) -> (r: bool)
        requires
            old(self).wf(),
        ensures
            final(self).wf(),
            r == (user_at(old(self)@.users, id) matches Some(u) && !u.deleted),
            r ==> final(self)@.users == old(self)@.users.update(
                user_index(old(self)@.users, id),
                mark_user_deleted(old(self)@.users[user_index(old(self)@.users, id)]),
            ),
            !r ==> final(self)@ == old(self)@,
            final(self)@.recipes == old(self)@.recipes,
            final(self)@.next_user_id == old(self)@.next_user_id,
            final(self)@.next_recipe_id == old(self)@.next_recipe_id,
    {
        let mut i: usize = 0;
        while i < self.users.len()
            invariant
                self.wf(),
                i <= self.users.len(),
                self@ == old(self)@,
                forall|j: int| 0 <= j < i ==> self@.users[j].id != id,
            decreases self.users.len() - i,
        {
            if self.users[i].id == id {
                proof {
                    let k = user_index(self@.users, id);
                    assert(self@.users[i as int].id == id);
                    assert(has_user(self@.users, id));
                    assert(0 <= k < self@.users.len() && self@.users[k].id == id);
                    assert(k == i as int);
                }
                if self.users[i].deleted {
                    return false;
                }
                let mut row = self.users[i].clone();
                row.deleted = true;
                self.users.set(i, row);
                proof {
                    assert(self@.users =~= old(self)@.users.update(
                        i as int,
                        mark_user_deleted(old(self)@.users[i as int]),
                    ));
                    assert forall|a: int| 0 <= a < self@.recipes.len() implies has_user(
                        self@.users,
                        #[trigger] self@.recipes[a].author,
                    ) by {
                        let k = choose|k: int|
                            0 <= k < old(self)@.users.len() && old(self)@.users[k].id
                                == self@.recipes[a].author;
                        assert(self@.users[k].id == self@.recipes[a].author);
                    }
                }
                return true;
            }
            i += 1;
        }
        proof {
            assert(!has_user(self@.users, id));
        }
        false
    }

    /// `update users set name = $1, hash = $2 where id = $3`; returns whether
    /// a row was affected. The caller has already ruled out renaming onto
    /// another non-deleted user's name (the relational unique index would
    /// reject it).
    pub fn update_user_row(&mut self, id: i32, name: String, hash: String, fail: bool) -> (r:
        Result<bool, ()>)
        requires
            old(self).wf(),
            forall|j: int|
                0 <= j < old(self)@.users.len() && !old(self)@.users[j].deleted && old(self)@.users[j].id != id ==> old(self)@.users[j].name != name@,
        ensures
            final(self).wf(),
            fail ==> r is Err && final(self)@ == old(self)@,
            !fail && !has_user(old(self)@.users, id) ==> r == Ok::<bool, ()>(false) && final(self)@
                == old(self)@,
            !fail && has_user(old(self)@.users, id) ==> r == Ok::<bool, ()>(true) && final(self)@.users == old(self)@.users.update(
                user_index(old(self)@.users, id),
                rename_user(old(self)@.users[user_index(old(self)@.users, id)], name@, hash@),
            ),
            final(self)@.recipes == old(self)@.recipes,
            final(self)@.next_user_id == old(self)@.next_user_id,
            final(self)@.next_recipe_id == old(self)@.next_recipe_id,
    {
        if fail {
            return Err(());
        }
        let mut i: usize = 0;
        while i < self.users.len()
            invariant
                !fail,
                self.wf(),
                i <= self.users.len(),
                self@ == old(self)@,
                forall|j: int|
                    0 <= j < self@.users.len() && !self@.users[j].deleted && self@.users[j].id
                        != id ==> self@.users[j].name != name@,
                forall|j: int| 0 <= j < i ==> self@.users[j].id != id,
            decreases self.users.len() - i,
        {
            if self.users[i].id == id {
                proof {
                    let k = user_index(self@.users, id);
                    assert(self@.users[i as int].id == id);
                    assert(has_user(self@.users, id));
                    assert(0 <= k < self@.users.len() && self@.users[k].id == id);
                    assert(k == i as int);
                }
                let mut row = self.users[i].clone();
                row.name = name;
                row.hash = hash;
                self.users.set(i, row);
                proof {
                    assert(self@.users =~= old(self)@.users.update(
                        i as int,
                        rename_user(old(self)@.users[i as int], name@, hash@),
                    ));
                    let newu = self@.users;
                    let oldu = old(self)@.users;
                    assert(forall|a: int|
                        0 <= a < newu.len() ==> (#[trigger] newu[a]).id == oldu[a].id
                            && newu[a].deleted == oldu[a].deleted);
                    assert forall|a: int, b: int| #![trigger newu[a], newu[b]]
                        0 <= a < b < newu.len() && !newu[a].deleted && !newu[b].deleted
                            implies newu[a].name != newu[b].name by {
                        if a == i as int {
                            assert(oldu[b].id != id);
                            assert(newu[b].name == oldu[b].name);
                        } else if b == i as int {
                            assert(oldu[a].id != id);
                            assert(newu[a].name == oldu[a].name);
                        } else {
                            assert(newu[a].name == oldu[a].name);
                            assert(newu[b].name == oldu[b].name);
                        }
                    }
                    assert forall|a: int| 0 <= a < self@.recipes.len() implies has_user(
                        self@.users,
                        #[trigger] self@.recipes[a].author,
                    ) by {
                        let k = choose|k: int|
                            0 <= k < old(self)@.users.len() && old(self)@.users[k].id
                                == self@.recipes[a].author;
                        assert(self@.users[k].id == self@.recipes[a].author);
                    }
                }
                return Ok(true);
            }
            i += 1;
        }
        proof {
            assert(!has_user(self@.users, id));
        }
        Ok(false)
    }
}

/// A recipe row matching an id, still visible, and owned by `author`: the rows
/// the conditional soft delete affects.
pub open spec fn deletable(recipes: Seq<RecipeRowV>, id: i32, author: i32) -> bool {
    match recipe_at(recipes, id) {
        Some(row) => !row.deleted && row.author == author,
        None => false,
    }
}

/// The row with its soft-delete flag raised.
pub open spec fn mark_recipe_deleted(row: RecipeRowV) -> RecipeRowV {
    RecipeRowV { deleted: true, ..row }
}

/// The user row with its soft-delete flag raised.
pub open spec fn mark_user_deleted(u: UserRowV) -> UserRowV {
    UserRowV { deleted: true, ..u }
}

/// The row with new name, description and edit timestamp, other columns kept.
pub open spec fn edit_recipe_meta(
    row: RecipeRowV,
    name: Seq<char>,
    description: Option<Seq<char>>,
    now: i64,
) -> RecipeRowV {
    RecipeRowV { name, description, edited_at: Some(now), ..row }
}

/// The user row with new name and password hash, other columns kept.
pub open spec fn rename_user(u: UserRowV, name: Seq<char>, hash: Seq<char>) -> UserRowV {
    UserRowV { name, hash, ..u }
}

// Lookups over the modelled blob store.

pub open spec fn has_body(bodies: Seq<(i32, RecipeBodyV)>, id: i32) -> bool {
    exists|i: int| 0 <= i < bodies.len() && bodies[i].0 == id
}

pub open spec fn body_index(bodies: Seq<(i32, RecipeBodyV)>, id: i32) -> int {
    choose|i: int| 0 <= i < bodies.len() && bodies[i].0 == id
}

/// The body blob stored under a recipe id, if any.
pub open spec fn body_at(bodies: Seq<(i32, RecipeBodyV)>, id: i32) -> Option<RecipeBodyV> {
    if has_body(bodies, id) {
        Some(bodies[body_index(bodies, id)].1)
    } else {
        None
    }
}

pub open spec fn has_image(images: Seq<(Seq<char>, Seq<u8>)>, key: Seq<char>) -> bool {
    exists|i: int| 0 <= i < images.len() && images[i].0 == key
}

pub open spec fn image_index(images: Seq<(Seq<char>, Seq<u8>)>, key: Seq<char>) -> int {
    choose|i: int| 0 <= i < images.len() && images[i].0 == key
}

/// The image blob stored under a key, if any.
pub open spec fn image_at(images: Seq<(Seq<char>, Seq<u8>)>, key: Seq<char>) -> Option<Seq<u8>> {
    if has_image(images, key) {
        Some(images[image_index(images, key)].1)
    } else {
        None
    }
}

/// `bodies` with `b` stored under `id`: replaced in place when the key is
/// present, appended when it is not.
pub open spec fn store_body(bodies: Seq<(i32, RecipeBodyV)>, id: i32, b: RecipeBodyV) -> Seq<
    (i32, RecipeBodyV),
> {
    if has_body(bodies, id) {
        bodies.update(body_index(bodies, id), (id, b))
    } else {
        bodies.push((id, b))
    }
}

/// `images` with `bytes` stored under `key`.
pub open spec fn store_image(
    images: Seq<(Seq<char>, Seq<u8>)>,
    key: Seq<char>,
    bytes: Seq<u8>,
) -> Seq<(Seq<char>, Seq<u8>)> {
    if has_image(images, key) {
        images.update(image_index(images, key), (key, bytes))
    } else {
        images.push((key, bytes))
    }
}

/// The content-keyed file store: recipe bodies keyed by their metadata row id,
/// images keyed by generated opaque tokens. Writes overwrite, reads fetch
/// whole values, deletes are best-effort from the callers' point of view.
pub struct BlobStore {
    pub bodies: Vec<(i32, RecipeBody)>,
    pub images: Vec<(String, Vec<u8>)>,
}

/// Mathematical model of the blob store.
#[verifier::ext_equal]
pub struct BlobStoreV {
    pub bodies: Seq<(i32, RecipeBodyV)>,
    pub images: Seq<(Seq<char>, Seq<u8>)>,
}

impl View for BlobStore {
    type V = BlobStoreV;

    open spec fn view(&self) -> BlobStoreV {
        BlobStoreV {
            bodies: self.bodies@.map_values(|p: (i32, RecipeBody)| (p.0, p.1@)),
            images: self.images@.map_values(|p: (String, Vec<u8>)| (p.0@, p.1@)),
        }
    }
}

/// Each key names at most one blob.
pub open spec fn wf_blobs(b: BlobStoreV) -> bool {
    &&& forall|i: int, j: int| #![trigger b.bodies[i], b.bodies[j]]
        0 <= i < j < b.bodies.len() ==> b.bodies[i].0 != b.bodies[j].0
    &&& forall|i: int, j: int| #![trigger b.images[i], b.images[j]]
        0 <= i < j < b.images.len() ==> b.images[i].0 != b.images[j].0
}

impl BlobStore {
    pub open spec fn wf(&self) -> bool {
        wf_blobs(self@)
    }

    /// An empty blob store.
    pub fn new() -> (r: Self)
        ensures
            r@.bodies == Seq::<(i32, RecipeBodyV)>::empty(),
            r@.images == Seq::<(Seq<char>, Seq<u8>)>::empty(),
            r.wf(),
    {
        let r = BlobStore { bodies: Vec::new(), images: Vec::new() };
        proof {
            assert(r@.bodies =~= Seq::<(i32, RecipeBodyV)>::empty());
            assert(r@.images =~= Seq::<(Seq<char>, Seq<u8>)>::empty());
        }
        r
    }

    /// Fetches the body blob stored under a recipe id, whole.
    pub fn read_body(&self, id: i32) -> (r: Option<RecipeBody>)
        requires
            self.wf(),
        ensures
            r matches Some(b) ==> body_at(self@.bodies, id) == Some(b@),
            r is None ==> body_at(self@.bodies, id) is None,
    {
        let mut i: usize = 0;
        while i < self.bodies.len()
            invariant
                self.wf(),
                i <= self.bodies.len(),
                forall|j: int| 0 <= j < i ==> self@.bodies[j].0 != id,
            decreases self.bodies.len() - i,
        {
            if self.bodies[i].0 == id {
                proof {
                    let k = body_index(self@.bodies, id);
                    assert(self@.bodies[i as int].0 == id);
                    assert(has_body(self@.bodies, id));
                    assert(0 <= k < self@.bodies.len() && self@.bodies[k].0 == id);
                    assert(k == i as int);
                }
                return Some(self.bodies[i].1.clone());
            }
            i += 1;
        }
        proof {
            assert(!has_body(self@.bodies, id));
        }
        None
    }

    /// Writes (or overwrites) the body blob under a recipe id.
    pub fn write_body(&mut self, id: i32, body: RecipeBody, fail: bool) -> (r: Result<(), ()>)
        requires
            old(self).wf(),
        ensures
            final(self).wf(),
            fail ==> r is Err && final(self)@ == old(self)@,
            !fail ==> r is Ok && final(self)@.bodies == store_body(old(self)@.bodies, id, body@),
            final(self)@.images == old(self)@.images,
    {
        if fail {
            return Err(());
        }
        let mut i: usize = 0;
        while i < self.bodies.len()
            invariant
                !fail,
                self.wf(),
                i <= self.bodies.len(),
                self@ == old(self)@,
                forall|j: int| 0 <= j < i ==> self@.bodies[j].0 != id,
            decreases self.bodies.len() - i,
        {
            if self.bodies[i].0 == id {
                proof {
                    let k = body_index(self@.bodies, id);
                    assert(self@.bodies[i as int].0 == id);
                    assert(has_body(self@.bodies, id));
                    assert(0 <= k < self@.bodies.len() && self@.bodies[k].0 == id);
                    assert(k == i as int);
                }
                self.bodies.set(i, (id, body));
                proof {
                    assert(self@.bodies =~= old(self)@.bodies.update(i as int, (id, self@.bodies[i as int].1)));
                    assert(self@.images =~= old(self)@.images);
                    assert(forall|a: int|
                        0 <= a < self@.bodies.len() ==> (#[trigger] self@.bodies[a]).0 == old(
                            self,
                        )@.bodies[a].0);
                }
                return Ok(());
            }
            i += 1;
        }
        proof {
            assert(!has_body(self@.bodies, id));
        }
        self.bodies.push((id, body));
        proof {
            assert(self@.bodies =~= old(self)@.bodies.push((id, self@.bodies.last().1)));
            assert(self@.images =~= old(self)@.images);
        }
        Ok(())
    }

    /// Removes the body blob under a recipe id, if one is stored.
    pub fn remove_body(&mut self, id: i32)
        requires
            old(self).wf(),
        ensures
            final(self).wf(),
            has_body(old(self)@.bodies, id) ==> final(self)@.bodies == old(self)@.bodies.remove(
                body_index(old(self)@.bodies, id),
            ),
            !has_body(old(self)@.bodies, id) ==> final(self)@ == old(self)@,
            final(self)@.images == old(self)@.images,
    {
        let mut i: usize = 0;
        while i < self.bodies.len()
            invariant
                self.wf(),
                i <= self.bodies.len(),
                self@ == old(self)@,
                forall|j: int| 0 <= j < i ==> self@.bodies[j].0 != id,
            decreases self.bodies.len() - i,
        {
            if self.bodies[i].0 == id {
                proof {
                    let k = body_index(self@.bodies, id);
                    assert(self@.bodies[i as int].0 == id);
                    assert(has_body(self@.bodies, id));
                    assert(0 <= k < self@.bodies.len() && self@.bodies[k].0 == id);
                    assert(k == i as int);
                }
                self.bodies.remove(i);
                proof {
                    assert(self@.images =~= old(self)@.images);
                    assert(self@.bodies =~= old(self)@.bodies.remove(i as int));
                    let newb = self@.bodies;
                    let oldb = old(self)@.bodies;
                    assert forall|a: int, b: int| #![trigger newb[a], newb[b]]
                        0 <= a < b < newb.len() implies newb[a].0 != newb[b].0 by {
                        let a0: int = if a < i as int { a } else { a + 1 };
                        let b0: int = if b < i as int { b } else { b + 1 };
                        assert(newb[a] == oldb[a0]);
                        assert(newb[b] == oldb[b0]);
                    }
                }
                return ;
            }
            i += 1;
        }
        proof {
            assert(!has_body(self@.bodies, id));
        }
    }

    /// Writes (or overwrites) an image blob under a generated key.
    pub fn write_image(&mut self, key: String, bytes: Vec<u8>, fail: bool) -> (r: Result<(), ()>)
        requires
            old(self).wf(),
        ensures
            final(self).wf(),
            fail ==> r is Err && final(self)@ == old(self)@,
            !fail ==> r is Ok && final(self)@.images == store_image(
                old(self)@.images,
                key@,
                bytes@,
            ),
            final(self)@.bodies == old(self)@.bodies,
    {
        if fail {
            return Err(());
        }
        let mut i: usize = 0;
        while i < self.images.len()
            invariant
                !fail,
                self.wf(),
                i <= self.images.len(),
                self@ == old(self)@,
                forall|j: int| 0 <= j < i ==> self@.images[j].0 != key@,
            decreases self.images.len() - i,
        {
            if self.images[i].0 == key {
                proof {
                    let k = image_index(self@.images, key@);
                    assert(self@.images[i as int].0 == key@);
                    assert(has_image(self@.images, key@));
                    assert(0 <= k < self@.images.len() && self@.images[k].0 == key@);
                    assert(k == i as int);
                }
                self.images.set(i, (key, bytes));
                proof {
                    assert(self@.images =~= old(self)@.images.update(i as int, (self@.images[i as int].0, self@.images[i as int].1)));
                    assert(self@.bodies =~= old(self)@.bodies);
                    assert(forall|a: int|
                        0 <= a < self@.images.len() ==> (#[trigger] self@.images[a]).0 == old(
                            self,
                        )@.images[a].0);
                }
                return Ok(());
            }
            i += 1;
        }
        proof {
            assert(!has_image(self@.images, key@));
        }
        self.images.push((key, bytes));
        proof {
            assert(self@.images =~= old(self)@.images.push((self@.images.last().0, self@.images.last().1)));
            assert(self@.images.last().0 == key@);
            assert(self@.images =~= old(self)@.images.push((key@, bytes@)));
            assert(self@.bodies =~= old(self)@.bodies);
        }
        Ok(())
    }

    /// Removes the image blob under a key, if one is stored.
    pub fn remove_image(&mut self, key: &String)
        requires
            old(self).wf(),
        ensures
            final(self).wf(),
            has_image(old(self)@.images, key@) ==> final(self)@.images == old(
                self,
            )@.images.remove(image_index(old(self)@.images, key@)),
            !has_image(old(self)@.images, key@) ==> final(self)@ == old(self)@,
            final(self)@.bodies == old(self)@.bodies,
    {
        let mut i: usize = 0;
        while i < self.images.len()
            invariant
                self.wf(),
                i <= self.images.len(),
                self@ == old(self)@,
                forall|j: int| 0 <= j < i ==> self@.images[j].0 != key@,
            decreases self.images.len() - i,
        {
            if self.images[i].0 == *key {
                proof {
                    let k = image_index(self@.images, key@);
                    assert(self@.images[i as int].0 == key@);
                    assert(has_image(self@.images, key@));
                    assert(0 <= k < self@.images.len() && self@.images[k].0 == key@);
                    assert(k == i as int);
                }
                self.images.remove(i);
                proof {
                    assert(self@.bodies =~= old(self)@.bodies);
                    assert(self@.images =~= old(self)@.images.remove(i as int));
                    let newb = self@.images;
                    let oldb = old(self)@.images;
                    assert forall|a: int, b: int| #![trigger newb[a], newb[b]]
                        0 <= a < b < newb.len() implies newb[a].0 != newb[b].0 by {
                        let a0: int = if a < i as int { a } else { a + 1 };
                        let b0: int = if b < i as int { b } else { b + 1 };
                        assert(newb[a] == oldb[a0]);
                        assert(newb[b] == oldb[b0]);
                    }
                }
                return ;
            }
            i += 1;
        }
        proof {
            assert(!has_image(self@.images, key@));
        }
    }
}

} // verus!
