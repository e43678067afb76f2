//! The dual-store persistence engine: create/read/search/delete/update over
//! the metadata store and the blob store, orchestrated as sagas with
//! compensating actions. Each multi-step write takes an injected fault plan
//! naming which store writes fail, so every partial-failure outcome is
//! enumerated and proved: a failed create leaves both stores exactly as they
//! were, and a successful create is immediately visible to readers.

use vstd::prelude::*;
use crate::DEFAULT_SEARCH_LIMIT;
use crate::MAX_SEARCH_LIMIT;
use crate::effective_search_limit;
use crate::recipe::RecipeBody;
use crate::recipe::RecipeBodyV;
use crate::recipe::LightweightRecipe;
use crate::recipe::LightweightRecipeV;
use crate::recipe::SearchQuery;
use crate::recipe::contains_substring;
use crate::recipe::contains_sub;
use crate::recipe::lights_view;
use crate::recipe::page_slice;
use crate::recipe::page_start;
use crate::recipe::page_stop;
use crate::store::BlobStore;
use crate::store::BlobStoreV;
use crate::store::MetadataStore;
use crate::store::MetadataStoreV;
use crate::store::RecipeRow;
use crate::store::RecipeRowV;
use crate::store::body_at;
use crate::store::body_index;
use crate::store::has_body;
use crate::store::has_recipe;
use crate::store::has_image;
use crate::store::image_index;
use crate::store::opt_view;
use crate::store::deletable;
use crate::store::edit_recipe_meta;
use crate::store::mark_recipe_deleted;
use crate::store::recipe_at;
use crate::store::recipe_index;
use crate::store::store_body;
use crate::store::store_image;
use crate::store::user_at;
use crate::store::UserRowV;
use crate::store::wf_meta;

verus! {

/// The classified failures an engine operation can surface.
#[derive(Clone, Copy, PartialEq, Eq, Structural, Debug)]
pub enum EngineError {
    /// The row is absent or soft-deleted.
    NotFound,
    /// The authenticated subject does not own the target row.
    Forbidden,
    /// A search asked for more rows than the configured maximum.
    PayloadTooLarge,
    /// The request is malformed (an empty filter set, or a negative cap).
    BadRequest,
    /// A store write or read failed; compensations have already run.
    StorageFailure,
    /// The authenticated subject is not a live user.
    NoSuchUser,
}

/// Which of an operation's store writes fail. The engine's contracts
/// enumerate the outcome under every plan; live adapters learn the flags from
/// the stores' answers.
#[derive(Clone, Copy, PartialEq, Eq, Structural, Debug)]
pub struct StoreFaults {
    /// The relational insert or update fails.
    pub metadata: bool,
    /// The body blob write fails.
    pub body: bool,
    /// The image blob write fails.
    pub image: bool,
}

impl StoreFaults {
    /// The plan under which every store write succeeds.
    pub fn none() -> (r: StoreFaults)
        ensures
            r == (StoreFaults { metadata: false, body: false, image: false }),
    {
        StoreFaults { metadata: false, body: false, image: false }
    }
}

/// A composed recipe: the metadata row and the body blob it joins to.
#[derive(Debug)]
pub struct RecipeRecord {
    pub meta: RecipeRow,
    pub body: RecipeBody,
}

/// Every stored body blob belongs to an existing metadata row: the row is the
/// authoritative existence check, so a blob may never outlive discovery of its
/// row (the reverse — a row whose blob is already gone — is surfaced by reads
/// as a hard failure).
pub open spec fn stores_consistent(m: MetadataStoreV, b: BlobStoreV) -> bool {
    forall|i: int| 0 <= i < b.bodies.len() ==> has_recipe(m.recipes, (#[trigger] b.bodies[i]).0)
}

/// What a read of `id` returns, as a function of the two stores' states.
pub open spec fn read_outcome(m: MetadataStoreV, b: BlobStoreV, id: i32) -> Result<
    (RecipeRowV, RecipeBodyV),
    EngineError,
> {
    match recipe_at(m.recipes, id) {
        None => Err(EngineError::NotFound),
        Some(row) => if row.deleted {
            Err(EngineError::NotFound)
        } else {
            match body_at(b.bodies, id) {
                None => Err(EngineError::StorageFailure),
                Some(body) => Ok((row, body)),
            }
        },
    }
}

/// Fetches the non-deleted row with the given id and the body blob it joins
/// to. Reads are public and mutate nothing. A visible row whose body blob is
/// missing is surfaced as a hard `StorageFailure` rather than hidden, so an
/// orphaned row is noticed.
pub fn get_recipe(m: &MetadataStore, blobs: &BlobStore, id: i32) -> (r: Result<
    RecipeRecord,
    EngineError,
>)
    requires
        m.wf(),
        blobs.wf(),
    ensures
        r matches Ok(rec) ==> read_outcome(m@, blobs@, id) == Ok::<
            (RecipeRowV, RecipeBodyV),
            EngineError,
        >((rec.meta@, rec.body@)),
        r matches Err(e) ==> read_outcome(m@, blobs@, id) == Err::<
            (RecipeRowV, RecipeBodyV),
            EngineError,
        >(e),
{
    match m.get_recipe(id) {
        None => Err(EngineError::NotFound),
        Some(row) => {
            if row.deleted {
                Err(EngineError::NotFound)
            } else {
                let meta = row.clone();
                match blobs.read_body(id) {
                    None => Err(EngineError::StorageFailure),
                    Some(body) => Ok(RecipeRecord { meta, body }),
                }
            }
        },
    }
}

/// Relies on uuid::Uuid::new_v4 and its hyphenated rendering: a randomly
/// generated opaque key; every outcome is 36 characters long, and nothing
/// more is assumed of it.
#[verifier::external_body]
fn fresh_image_key() -> (r: String)
    ensures
        r@.len() == 36,
{
    uuid::Uuid::new_v4().to_string()
}

/// What a create by `subject` returns — the id the new row gets, or the
/// classified rejection — as a function of the metadata state and fault plan.
pub open spec fn create_outcome(
    m: MetadataStoreV,
    subject: i32,
    has_image: bool,
    faults: StoreFaults,
) -> Result<i32, EngineError> {
    match user_at(m.users, subject) {
        None => Err(EngineError::NoSuchUser),
        Some(u) => if u.deleted {
            Err(EngineError::NoSuchUser)
        } else if faults.metadata || faults.body || (has_image && faults.image) {
            Err(EngineError::StorageFailure)
        } else {
            Ok(m.next_recipe_id)
        },
    }
}

/// The create saga. Writes run row first (to obtain the assigned id used as
/// the blob key), then body blob, then image blob; compensations run strictly
/// in reverse on the first failure, so a failed create leaves every row and
/// blob as it was (at most the id sequence advances) and a reader can never
/// discover a row whose body was never written. On success the composed
/// record is returned and a read of the new id succeeds with identical body
/// content.
pub fn create_recipe(
    m: &mut MetadataStore,
    blobs: &mut BlobStore,
    subject: i32,
    name: String,
    description: Option<String>,
    body: RecipeBody,
    image: Option<Vec<u8>>,
    now: i64,
    faults: StoreFaults,
) -> (r: Result<RecipeRecord, EngineError>)
    requires
        old(m).wf(),
        old(blobs).wf(),
        stores_consistent(old(m)@, old(blobs)@),
        old(m)@.next_recipe_id < i32::MAX,
    ensures
        final(m).wf(),
        final(blobs).wf(),
        stores_consistent(final(m)@, final(blobs)@),
        r matches Err(e) ==> Err::<i32, EngineError>(e) == create_outcome(
            old(m)@,
            subject,
            image is Some,
            faults,
        ),
        r is Err ==> final(m)@.recipes == old(m)@.recipes && final(m)@.users == old(m)@.users
            && final(m)@.next_user_id == old(m)@.next_user_id && final(blobs)@ == old(blobs)@,
        r is Err ==> old(m)@.next_recipe_id <= final(m)@.next_recipe_id <= old(m)@.next_recipe_id
            + 1,
        r is Err ==> read_outcome(final(m)@, final(blobs)@, old(m)@.next_recipe_id) == Err::<
            (RecipeRowV, RecipeBodyV),
            EngineError,
        >(EngineError::NotFound),
        r matches Ok(rec) ==> create_outcome(old(m)@, subject, image is Some, faults) == Ok::<
            i32,
            EngineError,
        >(rec.meta.id),
        r matches Ok(rec) ==> rec.meta.id == old(m)@.next_recipe_id && rec.meta@.name == name@
            && rec.meta@.description == opt_view(description) && rec.meta.author == subject
            && !rec.meta.deleted && rec.meta.created_at == now && rec.meta@.edited_at
            == None::<i64> && (image is Some <==> rec.meta@.image is Some),
        r matches Ok(rec) ==> rec.body@ == body@,
        r matches Ok(rec) ==> final(m)@.recipes == old(m)@.recipes.push(rec.meta@) && final(m)@.users == old(m)@.users && final(m)@.next_recipe_id == old(m)@.next_recipe_id + 1
            && final(m)@.next_user_id == old(m)@.next_user_id,
        r matches Ok(rec) ==> final(blobs)@.bodies == old(blobs)@.bodies.push(
            (rec.meta.id, body@),
        ),
        r matches Ok(rec) ==> match (image, rec.meta@.image) {
            (Some(bytes), Some(k)) => final(blobs)@.images == store_image(
                old(blobs)@.images,
                k,
                bytes@,
            ),
            (None, None) => final(blobs)@.images == old(blobs)@.images,
            _ => false,
        },
        r matches Ok(rec) ==> read_outcome(final(m)@, final(blobs)@, rec.meta.id) == Ok::<
            (RecipeRowV, RecipeBodyV),
            EngineError,
        >((rec.meta@, body@)),
{
    let author_live = match m.get_user(subject) {
        Some(u) => !u.deleted,
        None => false,
    };
    if !author_live {
        return Err(EngineError::NoSuchUser);
    }

    let image_key: Option<String> = match &image {
        Some(_) => Some(fresh_image_key()),
        None => None,
    };
    let row_key: Option<String> = match &image_key {
        Some(k) => Some(k.clone()),
        None => None,
    };

    let id = match m.insert_recipe(name, description, subject, row_key, now, faults.metadata) {
        Ok(id) => id,
        Err(_) => {
            return Err(EngineError::StorageFailure);
        },
    };
    proof {
        assert(!has_recipe(old(m)@.recipes, id));
        assert(!has_body(old(blobs)@.bodies, id));
    }

    let stored_body = body.clone();
    if blobs.write_body(id, stored_body, faults.body).is_err() {
        // compensation: take the just-inserted row back out
        proof {
            assert(has_recipe(m@.recipes, id));
            let k = recipe_index(m@.recipes, id);
            assert(m@.recipes[old(m)@.recipes.len() as int].id == id);
            assert(k == old(m)@.recipes.len());
        }
        m.remove_recipe(id);
        proof {
            assert(m@.recipes =~= old(m)@.recipes);
            assert(!has_recipe(m@.recipes, old(m)@.next_recipe_id));
        }
        return Err(EngineError::StorageFailure);
    }

    if let Some(bytes) = image {
        let k = match image_key {
            Some(k) => k,
            None => {
                proof {
                    assert(false);
                }
                String::new()
            },
        };
        if blobs.write_image(k, bytes, faults.image).is_err() {
            // compensations, last written first removed
            proof {
                assert(blobs@.bodies == old(blobs)@.bodies.push((id, body@)));
                assert(blobs@.bodies[old(blobs)@.bodies.len() as int].0 == id);
                assert(has_body(blobs@.bodies, id));
                let kk = body_index(blobs@.bodies, id);
                assert(kk == old(blobs)@.bodies.len());
            }
            blobs.remove_body(id);
            proof {
                assert(blobs@.bodies =~= old(blobs)@.bodies);
                assert(blobs@ =~= old(blobs)@);
            }
            proof {
                assert(has_recipe(m@.recipes, id));
                let k2 = recipe_index(m@.recipes, id);
                assert(m@.recipes[old(m)@.recipes.len() as int].id == id);
                assert(k2 == old(m)@.recipes.len());
            }
            m.remove_recipe(id);
            proof {
                assert(m@.recipes =~= old(m)@.recipes);
                assert(!has_recipe(m@.recipes, old(m)@.next_recipe_id));
            }
            return Err(EngineError::StorageFailure);
        }
    }

    let meta = match m.get_recipe(id) {
        Some(row) => row.clone(),
        None => {
            proof {
                assert(has_recipe(m@.recipes, id));
                assert(false);
            }
            return Err(EngineError::StorageFailure);
        },
    };
    proof {
        let rows = m@.recipes;
        let k = recipe_index(rows, id);
        assert(rows[old(m)@.recipes.len() as int].id == id);
        assert(k == old(m)@.recipes.len());
        assert(meta@ == rows.last());
        assert(m@.recipes =~= old(m)@.recipes.push(meta@));
        let bodies = blobs@.bodies;
        let kb = body_index(bodies, id);
        assert(bodies[old(blobs)@.bodies.len() as int].0 == id);
        assert(kb == old(blobs)@.bodies.len());
        assert(blobs@.bodies =~= old(blobs)@.bodies.push((id, body@)));
        assert forall|i: int| 0 <= i < blobs@.bodies.len() implies has_recipe(
            m@.recipes,
            (#[trigger] blobs@.bodies[i]).0,
        ) by {
            if i < old(blobs)@.bodies.len() {
                let w = choose|w: int|
                    0 <= w < old(m)@.recipes.len() && old(m)@.recipes[w].id == blobs@.bodies[i].0;
                assert(m@.recipes[w].id == blobs@.bodies[i].0);
            } else {
                assert(m@.recipes[old(m)@.recipes.len() as int].id == id);
            }
        }
        assert(read_outcome(m@, blobs@, id) == Ok::<(RecipeRowV, RecipeBodyV), EngineError>(
            (meta@, body@),
        ));
    }
    Ok(RecipeRecord { meta, body })
}

/// `images` without the blob under `key`, when one is stored.
pub open spec fn drop_image(images: Seq<(Seq<char>, Seq<u8>)>, key: Seq<char>) -> Seq<
    (Seq<char>, Seq<u8>),
> {
    if has_image(images, key) {
        images.remove(image_index(images, key))
    } else {
        images
    }
}

/// `bodies` without the blob under `id`, when one is stored.
pub open spec fn drop_body(bodies: Seq<(i32, RecipeBodyV)>, id: i32) -> Seq<(i32, RecipeBodyV)> {
    if has_body(bodies, id) {
        bodies.remove(body_index(bodies, id))
    } else {
        bodies
    }
}

/// What a soft delete of `id` by `subject` returns, as a function of the
/// metadata state and the fault plan.
pub open spec fn delete_outcome(
    m: MetadataStoreV,
    id: i32,
    subject: i32,
    faults: StoreFaults,
) -> Result<(), EngineError> {
    match recipe_at(m.recipes, id) {
        None => Err(EngineError::NotFound),
        Some(row) => if row.deleted {
            Err(EngineError::NotFound)
        } else if row.author != subject {
            Err(EngineError::Forbidden)
        } else if faults.metadata {
            Err(EngineError::StorageFailure)
        } else {
            Ok(())
        },
    }
}

/// The metadata state a soft delete leaves behind: the row's flag raised on
/// success, everything untouched otherwise.
pub open spec fn delete_meta_post(
    m: MetadataStoreV,
    id: i32,
    subject: i32,
    faults: StoreFaults,
) -> MetadataStoreV {
    if delete_outcome(m, id, subject, faults) is Ok {
        MetadataStoreV {
            recipes: m.recipes.update(
                recipe_index(m.recipes, id),
                mark_recipe_deleted(m.recipes[recipe_index(m.recipes, id)]),
            ),
            ..m
        }
    } else {
        m
    }
}

/// The soft delete. The row is fetched, required non-deleted and owned by the
/// requesting subject (absent or already-deleted rows are `NotFound`; a live
/// row someone else owns is `Forbidden`, matching update), and the flag is
/// flipped by a single conditional statement. Blob removal afterwards is best
/// effort: a removal failure is swallowed, because the row's flag is the
/// authoritative state and reads gate on it first.
pub fn delete_recipe(
    m: &mut MetadataStore,
    blobs: &mut BlobStore,
    id: i32,
    subject: i32,
    faults: StoreFaults,
) -> (r: Result<(), EngineError>)
    requires
        old(m).wf(),
        old(blobs).wf(),
        stores_consistent(old(m)@, old(blobs)@),
    ensures
        final(m).wf(),
        final(blobs).wf(),
        stores_consistent(final(m)@, final(blobs)@),
        r == delete_outcome(old(m)@, id, subject, faults),
        final(m)@ == delete_meta_post(old(m)@, id, subject, faults),
        r is Err ==> final(blobs)@ == old(blobs)@,
        r is Ok ==> read_outcome(final(m)@, final(blobs)@, id) == Err::<
            (RecipeRowV, RecipeBodyV),
            EngineError,
        >(EngineError::NotFound),
        r is Ok && faults.body ==> final(blobs)@.bodies == old(blobs)@.bodies,
        r is Ok && !faults.body ==> final(blobs)@.bodies == drop_body(old(blobs)@.bodies, id)
            && body_at(final(blobs)@.bodies, id) is None,
        r is Ok && faults.image ==> final(blobs)@.images == old(blobs)@.images,
        r is Ok && !faults.image ==> final(blobs)@.images == (match recipe_at(
            old(m)@.recipes,
            id,
        ).unwrap().image {
            Some(k) => drop_image(old(blobs)@.images, k),
            None => old(blobs)@.images,
        }),
{
    let row_image: Option<String>;
    match m.get_recipe(id) {
        None => {
            return Err(EngineError::NotFound);
        },
        Some(row) => {
            if row.deleted {
                return Err(EngineError::NotFound);
            }
            if row.author != subject {
                return Err(EngineError::Forbidden);
            }
            row_image = match &row.image {
                Some(k) => Some(k.clone()),
                None => None,
            };
        },
    }
    if faults.metadata {
        return Err(EngineError::StorageFailure);
    }
    let affected = m.set_recipe_deleted(id, subject);
    proof {
        assert(affected);
        assert(final(m)@ =~= delete_meta_post(old(m)@, id, subject, faults));
    }
    if !faults.body {
        blobs.remove_body(id);
    }
    if !faults.image {
        match &row_image {
            Some(k) => {
                blobs.remove_image(k);
            },
            None => {},
        }
    }
    proof {
        let newm = m@;
        let oldm = old(m)@;
        let idx = recipe_index(oldm.recipes, id);
        assert(newm.recipes[idx].deleted);
        assert(forall|a: int|
            0 <= a < newm.recipes.len() ==> (#[trigger] newm.recipes[a]).id
                == oldm.recipes[a].id);
        assert(recipe_at(newm.recipes, id) == Some(newm.recipes[recipe_index(newm.recipes, id)]));
        assert(newm.recipes[recipe_index(newm.recipes, id)].id == id);
        assert(recipe_index(newm.recipes, id) == idx);
        assert forall|i: int| 0 <= i < blobs@.bodies.len() implies has_recipe(
            newm.recipes,
            (#[trigger] blobs@.bodies[i]).0,
        ) by {
            let oldb = old(blobs)@.bodies;
            let key = blobs@.bodies[i].0;
            if faults.body {
                assert(blobs@.bodies[i] == oldb[i]);
            } else if has_body(oldb, id) {
                let bi = body_index(oldb, id);
                let i0: int = if i < bi {
                    i
                } else {
                    i + 1
                };
                assert(blobs@.bodies[i] == oldb[i0]);
            } else {
                assert(blobs@.bodies[i] == oldb[i]);
            }
            let w = choose|w: int| 0 <= w < oldm.recipes.len() && oldm.recipes[w].id == key;
            assert(newm.recipes[w].id == key);
        }
    }
    Ok(())
}

/// What an update of `id` by `subject` returns, as a function of the metadata
/// state and the fault plan.
pub open spec fn update_outcome(
    m: MetadataStoreV,
    id: i32,
    subject: i32,
    faults: StoreFaults,
) -> Result<(), EngineError> {
    match recipe_at(m.recipes, id) {
        None => Err(EngineError::NotFound),
        Some(row) => if row.deleted {
            Err(EngineError::NotFound)
        } else if row.author != subject {
            Err(EngineError::Forbidden)
        } else if faults.metadata || faults.body {
            Err(EngineError::StorageFailure)
        } else {
            Ok(())
        },
    }
}

/// The ownership-gated update: the row is fetched and required non-deleted
/// and owned by `subject` before anything is written; then the metadata row
/// and the body blob are replaced in that order. The two writes are not
/// atomic: when the body write fails the metadata (with its new edit
/// timestamp) is already in place while the blob still holds the old content —
/// a known eventual-consistency window, safe to close by re-applying the same
/// update.
pub fn update(
    m: &mut MetadataStore,
    blobs: &mut BlobStore,
    id: i32,
    subject: i32,
    name: String,
    description: Option<String>,
    body: RecipeBody,
    now: i64,
    faults: StoreFaults,
) -> (r: Result<(), EngineError>)
    requires
        old(m).wf(),
        old(blobs).wf(),
        stores_consistent(old(m)@, old(blobs)@),
    ensures
        final(m).wf(),
        final(blobs).wf(),
        stores_consistent(final(m)@, final(blobs)@),
        r == update_outcome(old(m)@, id, subject, faults),
        final(m)@.users == old(m)@.users && final(m)@.next_user_id == old(m)@.next_user_id
            && final(m)@.next_recipe_id == old(m)@.next_recipe_id,
        (update_outcome(old(m)@, id, subject, faults) == Err::<(), EngineError>(
            EngineError::NotFound,
        ) || update_outcome(old(m)@, id, subject, faults) == Err::<(), EngineError>(
            EngineError::Forbidden,
        ) || faults.metadata) ==> final(m)@ == old(m)@ && final(blobs)@ == old(blobs)@,
        (deletable(old(m)@.recipes, id, subject) && !faults.metadata) ==> final(m)@.recipes == old(m)@.recipes.update(
            recipe_index(old(m)@.recipes, id),
            edit_recipe_meta(
                old(m)@.recipes[recipe_index(old(m)@.recipes, id)],
                name@,
                opt_view(description),
                now,
            ),
        ),
        (deletable(old(m)@.recipes, id, subject) && !faults.metadata && faults.body) ==> final(blobs)@ == old(blobs)@,
        r is Ok ==> final(blobs)@.bodies == store_body(old(blobs)@.bodies, id, body@) && final(blobs)@.images == old(blobs)@.images,
        r is Ok ==> read_outcome(final(m)@, final(blobs)@, id) == Ok::<
            (RecipeRowV, RecipeBodyV),
            EngineError,
        >((final(m)@.recipes[recipe_index(old(m)@.recipes, id)], body@)),
{
    match m.get_recipe(id) {
        None => {
            return Err(EngineError::NotFound);
        },
        Some(row) => {
            if row.deleted {
                return Err(EngineError::NotFound);
            }
            if row.author != subject {
                return Err(EngineError::Forbidden);
            }
        },
    }
    if m.update_recipe_meta(id, name, description, now, faults.metadata).is_err() {
        return Err(EngineError::StorageFailure);
    }
    let ghost m_updated = m@;
    if blobs.write_body(id, body, faults.body).is_err() {
        // the documented window: the row already carries the new edit
        // timestamp while the blob still holds the old content
        proof {
            let newm = m@;
            let oldm = old(m)@;
            assert(forall|a: int|
                0 <= a < newm.recipes.len() ==> (#[trigger] newm.recipes[a]).id
                    == oldm.recipes[a].id);
            assert forall|i: int| 0 <= i < blobs@.bodies.len() implies has_recipe(
                newm.recipes,
                (#[trigger] blobs@.bodies[i]).0,
            ) by {
                let w = choose|w: int|
                    0 <= w < oldm.recipes.len() && oldm.recipes[w].id == blobs@.bodies[i].0;
                assert(newm.recipes[w].id == blobs@.bodies[i].0);
            }
        }
        return Err(EngineError::StorageFailure);
    }
    proof {
        let newm = m@;
        let oldm = old(m)@;
        let idx = recipe_index(oldm.recipes, id);
        assert(forall|a: int|
            0 <= a < newm.recipes.len() ==> (#[trigger] newm.recipes[a]).id
                == oldm.recipes[a].id);
        assert(newm.recipes[recipe_index(newm.recipes, id)].id == id);
        assert(recipe_index(newm.recipes, id) == idx);
        assert(!newm.recipes[idx].deleted);
        let newb = blobs@.bodies;
        let oldb = old(blobs)@.bodies;
        if has_body(oldb, id) {
            let bi = body_index(oldb, id);
            assert(newb[bi].0 == id);
            assert(body_index(newb, id) == bi);
            assert(body_at(newb, id) == Some(body@));
            assert(forall|a: int|
                0 <= a < newb.len() ==> (#[trigger] newb[a]).0 == oldb[a].0);
        } else {
            assert(newb[oldb.len() as int].0 == id);
            assert(has_body(newb, id));
            assert(body_index(newb, id) == oldb.len());
            assert(body_at(newb, id) == Some(body@));
        }
        assert forall|i: int| 0 <= i < blobs@.bodies.len() implies has_recipe(
            newm.recipes,
            (#[trigger] blobs@.bodies[i]).0,
        ) by {
            let key = blobs@.bodies[i].0;
            if i < oldb.len() as int {
                if has_body(oldb, id) || i < oldb.len() {
                    if blobs@.bodies[i].0 == oldb[i].0 {
                    }
                }
                let w = choose|w: int|
                    0 <= w < oldm.recipes.len() && oldm.recipes[w].id == oldb[i].0;
                assert(newm.recipes[w].id == oldb[i].0);
                assert(blobs@.bodies[i].0 == oldb[i].0);
            } else {
                assert(blobs@.bodies[i].0 == id);
                assert(newm.recipes[idx].id == id);
            }
        }
    }
    Ok(())
}

/// Re-applying the same update converges: editing a row's metadata with the
/// same values twice equals editing it once, and overwriting a body blob with
/// the same content twice equals overwriting it once. So the window a failed
/// body write leaves behind — new metadata over the old body — is safely
/// closed by retrying the identical update.
pub proof fn lemma_update_retry_idempotent(
    recipes: Seq<RecipeRowV>,
    bodies: Seq<(i32, RecipeBodyV)>,
    id: i32,
    name: Seq<char>,
    description: Option<Seq<char>>,
    now: i64,
    body: RecipeBodyV,
)
    requires
        forall|i: int, j: int| #![trigger recipes[i], recipes[j]]
            0 <= i < j < recipes.len() ==> recipes[i].id != recipes[j].id,
        forall|i: int, j: int| #![trigger bodies[i], bodies[j]]
            0 <= i < j < bodies.len() ==> bodies[i].0 != bodies[j].0,
        has_recipe(recipes, id),
    ensures
        ({
            let once = recipes.update(
                recipe_index(recipes, id),
                edit_recipe_meta(recipes[recipe_index(recipes, id)], name, description, now),
            );
            once.update(
                recipe_index(once, id),
                edit_recipe_meta(once[recipe_index(once, id)], name, description, now),
            ) == once
        }),
        store_body(store_body(bodies, id, body), id, body) == store_body(bodies, id, body),
{
    let idx = recipe_index(recipes, id);
    let once = recipes.update(
        idx,
        edit_recipe_meta(recipes[idx], name, description, now),
    );
    assert(forall|a: int| 0 <= a < once.len() ==> (#[trigger] once[a]).id == recipes[a].id);
    assert(once[recipe_index(once, id)].id == id);
    assert(recipe_index(once, id) == idx);
    assert(once.update(
        idx,
        edit_recipe_meta(once[idx], name, description, now),
    ) =~= once);

    let stored = store_body(bodies, id, body);
    if has_body(bodies, id) {
        let bi = body_index(bodies, id);
        assert(forall|a: int| 0 <= a < stored.len() ==> (#[trigger] stored[a]).0 == bodies[a].0);
        assert(stored[bi].0 == id);
        assert(has_body(stored, id));
        assert(stored[body_index(stored, id)].0 == id);
        assert(body_index(stored, id) == bi);
        assert(store_body(stored, id, body) =~= stored);
    } else {
        assert(stored == bodies.push((id, body)));
        assert(stored[bodies.len() as int].0 == id);
        assert(has_body(stored, id));
        assert(forall|a: int| 0 <= a < bodies.len() ==> (#[trigger] stored[a]).0 == bodies[a].0);
        assert(body_index(stored, id) == bodies.len());
        assert(store_body(stored, id, body) =~= stored);
    }
}

/// Ownership gate: a subject that does not own a visible recipe can neither
/// update nor delete it — both operations answer `Forbidden` and leave the
/// metadata untouched — whatever fault plan is in effect and however valid the
/// subject's token was.
pub proof fn lemma_ownership_gate(m: MetadataStoreV, id: i32, subject: i32, faults: StoreFaults)
    requires
        recipe_at(m.recipes, id) matches Some(row) && !row.deleted && row.author != subject,
    ensures
        delete_outcome(m, id, subject, faults) == Err::<(), EngineError>(EngineError::Forbidden),
        update_outcome(m, id, subject, faults) == Err::<(), EngineError>(EngineError::Forbidden),
        delete_meta_post(m, id, subject, faults) == m,
{
}

/// Soft-delete idempotence: deleting an id that is absent or already deleted
/// answers `NotFound` and changes nothing; after a successful delete, any
/// further delete of the same id answers `NotFound`, and a read of the id
/// answers `NotFound` whatever the blob store holds.
pub proof fn lemma_soft_delete_idempotent(
    m: MetadataStoreV,
    b: BlobStoreV,
    id: i32,
    s1: i32,
    s2: i32,
    f1: StoreFaults,
    f2: StoreFaults,
)
    requires
        wf_meta(m),
    ensures
        (recipe_at(m.recipes, id) is None || recipe_at(m.recipes, id).unwrap().deleted)
            ==> delete_outcome(m, id, s1, f1) == Err::<(), EngineError>(EngineError::NotFound)
            && delete_meta_post(m, id, s1, f1) == m,
        delete_outcome(m, id, s1, f1) is Ok ==> delete_outcome(
            delete_meta_post(m, id, s1, f1),
            id,
            s2,
            f2,
        ) == Err::<(), EngineError>(EngineError::NotFound),
        delete_outcome(m, id, s1, f1) is Ok ==> read_outcome(
            delete_meta_post(m, id, s1, f1),
            b,
            id,
        ) == Err::<(RecipeRowV, RecipeBodyV), EngineError>(EngineError::NotFound),
{
    if delete_outcome(m, id, s1, f1) is Ok {
        let post = delete_meta_post(m, id, s1, f1);
        let idx = recipe_index(m.recipes, id);
        assert(post.recipes[idx].id == id && post.recipes[idx].deleted);
        assert(forall|a: int|
            0 <= a < post.recipes.len() ==> (#[trigger] post.recipes[a]).id == m.recipes[a].id);
        assert(has_recipe(post.recipes, id));
        assert(post.recipes[recipe_index(post.recipes, id)].id == id);
        assert(recipe_index(post.recipes, id) == idx);
    }
}

/// One row's match against the conjunctive filters: the row is visible, and
/// every filter actually supplied matches as a substring — the recipe name,
/// its description, and the name of the user row its author joins to.
pub open spec fn row_matches(
    row: RecipeRowV,
    users: Seq<UserRowV>,
    name: Option<Seq<char>>,
    description: Option<Seq<char>>,
    author: Option<Seq<char>>,
) -> bool {
    &&& !row.deleted
    &&& match name {
        Some(n) => contains_substring(row.name, n),
        None => true,
    }
    &&& match description {
        Some(d) => row.description matches Some(rd) && contains_substring(rd, d),
        None => true,
    }
    &&& match author {
        Some(a) => user_at(users, row.author) matches Some(u) && contains_substring(u.name, a),
        None => true,
    }
}

/// The first `limit` matching rows, in store order.
pub open spec fn search_list(
    rows: Seq<RecipeRowV>,
    users: Seq<UserRowV>,
    name: Option<Seq<char>>,
    description: Option<Seq<char>>,
    author: Option<Seq<char>>,
    limit: int,
) -> Seq<RecipeRowV>
    decreases rows.len(),
{
    if rows.len() == 0 || limit <= 0 {
        Seq::empty()
    } else if row_matches(rows[0], users, name, description, author) {
        seq![rows[0]] + search_list(rows.skip(1), users, name, description, author, limit - 1)
    } else {
        search_list(rows.skip(1), users, name, description, author, limit)
    }
}

/// Every matched row's body blob is present.
pub open spec fn all_bodies_present(rows: Seq<RecipeRowV>, b: BlobStoreV) -> bool {
    forall|j: int| 0 <= j < rows.len() ==> has_body(b.bodies, (#[trigger] rows[j]).id)
}

/// Each matched row joined to its body blob.
pub open spec fn compose_results(rows: Seq<RecipeRowV>, b: BlobStoreV) -> Seq<
    (RecipeRowV, RecipeBodyV),
> {
    Seq::new(rows.len(), |j: int| (rows[j], body_at(b.bodies, rows[j].id).unwrap()))
}

/// What a search returns, as a function of the two stores' states and the
/// filters. A cap above the configured maximum is rejected outright (no rows
/// are consulted), as is a negative cap or an entirely empty filter set — the
/// explicit decision here is that an unfiltered listing must be asked for
/// through the lightweight listing, never implied. A matched row whose body
/// blob is missing fails the whole search rather than thinning the results.
pub open spec fn search_outcome(
    m: MetadataStoreV,
    b: BlobStoreV,
    name: Option<Seq<char>>,
    description: Option<Seq<char>>,
    author: Option<Seq<char>>,
    limit: Option<i16>,
) -> Result<Seq<(RecipeRowV, RecipeBodyV)>, EngineError> {
    if limit matches Some(l) && l > MAX_SEARCH_LIMIT {
        Err(EngineError::PayloadTooLarge)
    } else if limit matches Some(l) && l < 0 {
        Err(EngineError::BadRequest)
    } else if name is None && description is None && author is None {
        Err(EngineError::BadRequest)
    } else {
        let lim = match limit {
            Some(l) => l as int,
            None => DEFAULT_SEARCH_LIMIT as int,
        };
        let rows = search_list(m.recipes, m.users, name, description, author, lim);
        if all_bodies_present(rows, b) {
            Ok(compose_results(rows, b))
        } else {
            Err(EngineError::StorageFailure)
        }
    }
}

fn row_ok(row: &RecipeRow, m: &MetadataStore, q: &SearchQuery) -> (r: bool)
    requires
        m.wf(),
    ensures
        r == row_matches(row@, m@.users, opt_view(q.name), opt_view(q.description), opt_view(q.author)),
{
    if row.deleted {
        return false;
    }
    match &q.name {
        Some(n) => {
            if !contains_sub(row.name.as_str(), n.as_str()) {
                return false;
            }
        },
        None => {},
    }
    match &q.description {
        Some(d) => {
            match &row.description {
                None => {
                    return false;
                },
                Some(rd) => {
                    if !contains_sub(rd.as_str(), d.as_str()) {
                        return false;
                    }
                },
            }
        },
        None => {},
    }
    match &q.author {
        Some(a) => {
            match m.get_user(row.author) {
                None => {
                    return false;
                },
                Some(u) => {
                    if !contains_sub(u.name.as_str(), a.as_str()) {
                        return false;
                    }
                },
            }
        },
        None => {},
    }
    true
}

proof fn lemma_skip_one<T>(s: Seq<T>, i: int)
    requires
        0 <= i < s.len(),
    ensures
        s.skip(i).skip(1) =~= s.skip(i + 1),
        s.skip(i)[0] == s[i],
        s.skip(i).len() == s.len() - i,
{
}

/// The views of a vector of fetched rows.
pub open spec fn rows_view(rows: Seq<RecipeRow>) -> Seq<RecipeRowV> {
    rows.map_values(|row: RecipeRow| row@)
}

/// The views of a vector of composed records.
pub open spec fn records_view(recs: Seq<RecipeRecord>) -> Seq<(RecipeRowV, RecipeBodyV)> {
    recs.map_values(|rec: RecipeRecord| (rec.meta@, rec.body@))
}

/// The conjunctive, capped search over metadata rows joined to their body
/// blobs. Searches are public and mutate nothing.
pub fn search(m: &MetadataStore, blobs: &BlobStore, q: &SearchQuery) -> (r: Result<
    Vec<RecipeRecord>,
    EngineError,
>)
    requires
        m.wf(),
        blobs.wf(),
    ensures
        r matches Err(e) ==> search_outcome(
            m@,
            blobs@,
            opt_view(q.name),
            opt_view(q.description),
            opt_view(q.author),
            q.limit,
        ) == Err::<Seq<(RecipeRowV, RecipeBodyV)>, EngineError>(e),
        r matches Ok(v) ==> search_outcome(
            m@,
            blobs@,
            opt_view(q.name),
            opt_view(q.description),
            opt_view(q.author),
            q.limit,
        ) == Ok::<Seq<(RecipeRowV, RecipeBodyV)>, EngineError>(records_view(v@)),
{
    let ghost gname = opt_view(q.name);
    let ghost gdesc = opt_view(q.description);
    let ghost gauthor = opt_view(q.author);
    match q.limit {
        Some(l) => {
            if l > MAX_SEARCH_LIMIT {
                return Err(EngineError::PayloadTooLarge);
            }
            if l < 0 {
                return Err(EngineError::BadRequest);
            }
        },
        None => {},
    }
    if q.name.is_none() && q.description.is_none() && q.author.is_none() {
        return Err(EngineError::BadRequest);
    }
    let lim16 = effective_search_limit(q.limit);
    let lim = lim16 as usize;
    let ghost glim = lim as int;
    let ghost slist = search_list(m@.recipes, m@.users, gname, gdesc, gauthor, glim);

    let mut rows: Vec<RecipeRow> = Vec::new();
    let mut i: usize = 0;
    proof {
        assert(m@.recipes.skip(0) =~= m@.recipes);
        assert(rows_view(rows@) =~= Seq::<RecipeRowV>::empty());
        assert(Seq::<RecipeRowV>::empty() + slist =~= slist);
    }
    while i < m.recipes.len()
        invariant
            m.wf(),
            blobs.wf(),
            i <= m.recipes.len(),
            gname == opt_view(q.name),
            gdesc == opt_view(q.description),
            gauthor == opt_view(q.author),
            glim == lim,
            rows@.len() <= glim,
            slist == search_list(m@.recipes, m@.users, gname, gdesc, gauthor, glim),
            rows_view(rows@) + search_list(
                m@.recipes.skip(i as int),
                m@.users,
                gname,
                gdesc,
                gauthor,
                glim - rows@.len(),
            ) == slist,
        decreases m.recipes.len() - i,
    {
        proof {
            lemma_skip_one(m@.recipes, i as int);
        }
        let matched = {
            let row = &m.recipes[i];
            rows.len() < lim && row_ok(row, m, q)
        };
        if matched {
            let ghost rows_before = rows@;
            rows.push(m.recipes[i].clone());
            proof {
                assert(rows_view(rows@) =~= rows_view(rows_before).push(m@.recipes[i as int]));
                assert(row_matches(m@.recipes.skip(i as int)[0], m@.users, gname, gdesc, gauthor));
                assert(search_list(
                    m@.recipes.skip(i as int),
                    m@.users,
                    gname,
                    gdesc,
                    gauthor,
                    glim - rows_before.len(),
                ) == seq![m@.recipes[i as int]] + search_list(
                    m@.recipes.skip(i as int + 1),
                    m@.users,
                    gname,
                    gdesc,
                    gauthor,
                    glim - rows@.len(),
                ));
                assert(rows_view(rows@) + search_list(
                    m@.recipes.skip(i as int + 1),
                    m@.users,
                    gname,
                    gdesc,
                    gauthor,
                    glim - rows@.len(),
                ) =~= rows_view(rows_before) + (seq![m@.recipes[i as int]] + search_list(
                    m@.recipes.skip(i as int + 1),
                    m@.users,
                    gname,
                    gdesc,
                    gauthor,
                    glim - rows@.len(),
                )));
            }
        } else {
            proof {
                if rows@.len() < glim {
                    assert(!row_matches(m@.recipes[i as int], m@.users, gname, gdesc, gauthor));
                    assert(search_list(
                        m@.recipes.skip(i as int),
                        m@.users,
                        gname,
                        gdesc,
                        gauthor,
                        glim - rows@.len(),
                    ) == search_list(
                        m@.recipes.skip(i as int + 1),
                        m@.users,
                        gname,
                        gdesc,
                        gauthor,
                        glim - rows@.len(),
                    ));
                } else {
                    assert(search_list(
                        m@.recipes.skip(i as int),
                        m@.users,
                        gname,
                        gdesc,
                        gauthor,
                        0,
                    ) == Seq::<RecipeRowV>::empty());
                    assert(search_list(
                        m@.recipes.skip(i as int + 1),
                        m@.users,
                        gname,
                        gdesc,
                        gauthor,
                        0,
                    ) == Seq::<RecipeRowV>::empty());
                }
            }
        }
        i += 1;
    }
    proof {
        assert(m@.recipes.skip(i as int) =~= Seq::<RecipeRowV>::empty());
        assert(search_list(
            Seq::<RecipeRowV>::empty(),
            m@.users,
            gname,
            gdesc,
            gauthor,
            glim - rows@.len(),
        ) == Seq::<RecipeRowV>::empty());
        assert(rows_view(rows@) + Seq::<RecipeRowV>::empty() =~= rows_view(rows@));
        assert(rows_view(rows@) == slist);
    }

    let mut out: Vec<RecipeRecord> = Vec::new();
    let mut j: usize = 0;
    while j < rows.len()
        invariant
            blobs.wf(),
            j <= rows.len(),
            out@.len() == j,
            gname == opt_view(q.name),
            gdesc == opt_view(q.description),
            gauthor == opt_view(q.author),
            q.limit matches Some(l) ==> 0 <= l <= MAX_SEARCH_LIMIT,
            !(q.name is None && q.description is None && q.author is None),
            glim == (match q.limit {
                Some(l) => l as int,
                None => DEFAULT_SEARCH_LIMIT as int,
            }),
            slist == search_list(m@.recipes, m@.users, gname, gdesc, gauthor, glim),
            rows_view(rows@) == slist,
            forall|k: int| 0 <= k < j ==> has_body(blobs@.bodies, (#[trigger] slist[k]).id),
            forall|k: int|
                0 <= k < j ==> ((#[trigger] out@[k]).meta@, out@[k].body@) == (
                    slist[k],
                    body_at(blobs@.bodies, slist[k].id).unwrap(),
                ),
        decreases rows.len() - j,
    {
        proof {
            assert(rows_view(rows@)[j as int] == rows@[j as int]@);
        }
        match blobs.read_body(rows[j].id) {
            None => {
                proof {
                    assert(!has_body(blobs@.bodies, slist[j as int].id));
                    assert(!all_bodies_present(slist, blobs@));
                }
                return Err(EngineError::StorageFailure);
            },
            Some(b) => {
                out.push(RecipeRecord { meta: rows[j].clone(), body: b });
            },
        }
        j += 1;
    }
    proof {
        assert(all_bodies_present(slist, blobs@));
        assert(records_view(out@) =~= compose_results(slist, blobs@));
    }
    Ok(out)
}

proof fn lemma_search_list_members(
    rows: Seq<RecipeRowV>,
    users: Seq<UserRowV>,
    name: Option<Seq<char>>,
    description: Option<Seq<char>>,
    author: Option<Seq<char>>,
    limit: int,
)
    ensures
        forall|j: int|
            0 <= j < search_list(rows, users, name, description, author, limit).len()
                ==> !(#[trigger] search_list(rows, users, name, description, author, limit)[j]).deleted
                && exists|w: int|
                0 <= w < rows.len() && rows[w] == search_list(
                    rows,
                    users,
                    name,
                    description,
                    author,
                    limit,
                )[j],
    decreases rows.len(),
{
    if rows.len() == 0 || limit <= 0 {
    } else {
        lemma_search_list_members(rows.skip(1), users, name, description, author, limit - 1);
        lemma_search_list_members(rows.skip(1), users, name, description, author, limit);
        let list = search_list(rows, users, name, description, author, limit);
        let sub = if row_matches(rows[0], users, name, description, author) {
            search_list(rows.skip(1), users, name, description, author, limit - 1)
        } else {
            search_list(rows.skip(1), users, name, description, author, limit)
        };
        assert forall|j: int| 0 <= j < list.len() implies !(#[trigger] list[j]).deleted && exists|
            w: int,
        | 0 <= w < rows.len() && rows[w] == list[j] by {
            if row_matches(rows[0], users, name, description, author) {
                if j == 0 {
                    assert(rows[0] == list[0]);
                } else {
                    assert(list[j] == sub[j - 1]);
                    let w0 = choose|w0: int| 0 <= w0 < rows.skip(1).len() && rows.skip(1)[w0] == sub[j - 1];
                    assert(rows[w0 + 1] == list[j]);
                }
            } else {
                assert(list[j] == sub[j]);
                let w0 = choose|w0: int| 0 <= w0 < rows.skip(1).len() && rows.skip(1)[w0] == sub[j];
                assert(rows[w0 + 1] == list[j]);
            }
        }
    }
}

/// A soft-deleted recipe is absent from every search result, whatever filters
/// and cap are in effect.
pub proof fn lemma_deleted_absent_from_search(
    m: MetadataStoreV,
    id: i32,
    name: Option<Seq<char>>,
    description: Option<Seq<char>>,
    author: Option<Seq<char>>,
    limit: int,
)
    requires
        wf_meta(m),
        recipe_at(m.recipes, id) matches Some(row) && row.deleted,
    ensures
        forall|j: int|
            0 <= j < search_list(m.recipes, m.users, name, description, author, limit).len()
                ==> (#[trigger] search_list(m.recipes, m.users, name, description, author, limit)[j]).id
                != id,
{
    lemma_search_list_members(m.recipes, m.users, name, description, author, limit);
    let list = search_list(m.recipes, m.users, name, description, author, limit);
    let idx = recipe_index(m.recipes, id);
    assert forall|j: int| 0 <= j < list.len() implies (#[trigger] list[j]).id != id by {
        let w = choose|w: int| 0 <= w < m.recipes.len() && m.recipes[w] == list[j];
        if list[j].id == id {
            assert(m.recipes[w].id == id);
            assert(m.recipes[idx].id == id && m.recipes[idx].deleted);
            assert(w == idx);
        }
    }
}

/// The listing entry a metadata row projects to.
pub open spec fn light_of(row: RecipeRowV) -> LightweightRecipeV {
    LightweightRecipeV {
        id: row.id,
        author: row.author,
        name: row.name,
        description: row.description,
        createdat: row.created_at,
    }
}

/// Every visible recipe's listing entry, in store order: the unfiltered
/// counterpart of a search, before windowing.
pub open spec fn listing(m: MetadataStoreV) -> Seq<LightweightRecipeV> {
    search_list(m.recipes, m.users, None, None, None, m.recipes.len() as int).map_values(
        |row: RecipeRowV| light_of(row),
    )
}

fn light_entry(row: &RecipeRow) -> (r: LightweightRecipe)
    ensures
        r@ == light_of(row@),
{
    LightweightRecipe {
        id: row.id,
        author: row.author,
        name: row.name.clone(),
        description: match &row.description {
            Some(d) => Some(d.clone()),
            None => None,
        },
        createdat: row.created_at,
    }
}

/// The metadata-only listing that an unfiltered browse asks for: every
/// visible recipe in store order, windowed into pages of `per_page` rows.
pub fn list_recipes(m: &MetadataStore, page: usize, per_page: usize) -> (r: Vec<LightweightRecipe>)
    requires
        m.wf(),
        page * per_page <= usize::MAX,
        m@.recipes.len() + per_page <= usize::MAX,
    ensures
        lights_view(r@) == listing(m@).subrange(
            page_start(listing(m@).len() as int, page as int, per_page as int),
            page_stop(listing(m@).len() as int, page as int, per_page as int),
        ),
{
    let ghost glim = m@.recipes.len() as int;
    let ghost slist = search_list(m@.recipes, m@.users, None, None, None, glim);

    let mut entries: Vec<LightweightRecipe> = Vec::new();
    let mut i: usize = 0;
    proof {
        assert(m@.recipes.skip(0) =~= m@.recipes);
        assert(lights_view(entries@) =~= Seq::<LightweightRecipeV>::empty());
        assert(Seq::<LightweightRecipeV>::empty() + slist.map_values(
            |row: RecipeRowV| light_of(row),
        ) =~= slist.map_values(|row: RecipeRowV| light_of(row)));
    }
    while i < m.recipes.len()
        invariant
            m.wf(),
            i <= m.recipes.len(),
            entries@.len() <= i,
            glim == m@.recipes.len(),
            slist == search_list(m@.recipes, m@.users, None, None, None, glim),
            lights_view(entries@) + search_list(
                m@.recipes.skip(i as int),
                m@.users,
                None,
                None,
                None,
                glim - entries@.len(),
            ).map_values(|row: RecipeRowV| light_of(row)) == slist.map_values(
                |row: RecipeRowV| light_of(row),
            ),
        decreases m.recipes.len() - i,
    {
        proof {
            lemma_skip_one(m@.recipes, i as int);
        }
        let ghost entries_before = entries@;
        let row = &m.recipes[i];
        if !row.deleted {
            entries.push(light_entry(row));
            proof {
                assert(row_matches(m@.recipes[i as int], m@.users, None, None, None));
                assert(search_list(
                    m@.recipes.skip(i as int),
                    m@.users,
                    None,
                    None,
                    None,
                    glim - entries_before.len(),
                ) == seq![m@.recipes[i as int]] + search_list(
                    m@.recipes.skip(i as int + 1),
                    m@.users,
                    None,
                    None,
                    None,
                    glim - entries@.len(),
                ));
                assert(lights_view(entries@) =~= lights_view(entries_before).push(
                    light_of(m@.recipes[i as int]),
                ));
                assert(lights_view(entries@) + search_list(
                    m@.recipes.skip(i as int + 1),
                    m@.users,
                    None,
                    None,
                    None,
                    glim - entries@.len(),
                ).map_values(|row: RecipeRowV| light_of(row)) =~= lights_view(entries_before)
                    + (seq![m@.recipes[i as int]] + search_list(
                    m@.recipes.skip(i as int + 1),
                    m@.users,
                    None,
                    None,
                    None,
                    glim - entries@.len(),
                )).map_values(|row: RecipeRowV| light_of(row)));
            }
        } else {
            proof {
                assert(!row_matches(m@.recipes[i as int], m@.users, None, None, None));
                assert(search_list(
                    m@.recipes.skip(i as int),
                    m@.users,
                    None,
                    None,
                    None,
                    glim - entries@.len(),
                ) == search_list(
                    m@.recipes.skip(i as int + 1),
                    m@.users,
                    None,
                    None,
                    None,
                    glim - entries@.len(),
                ));
            }
        }
        i += 1;
    }
    proof {
        assert(m@.recipes.skip(i as int) =~= Seq::<RecipeRowV>::empty());
        assert(search_list(
            Seq::<RecipeRowV>::empty(),
            m@.users,
            None,
            None,
            None,
            glim - entries@.len(),
        ) == Seq::<RecipeRowV>::empty());
        assert(Seq::<RecipeRowV>::empty().map_values(|row: RecipeRowV| light_of(row))
            =~= Seq::<LightweightRecipeV>::empty());
        assert(lights_view(entries@) + Seq::<LightweightRecipeV>::empty() =~= lights_view(
            entries@,
        ));
        assert(lights_view(entries@) == listing(m@));
        assert(entries@.len() == listing(m@).len());
    }
    let window = page_slice(&entries, page, per_page);
    proof {
        let lo = page_start(listing(m@).len() as int, page as int, per_page as int);
        let hi = page_stop(listing(m@).len() as int, page as int, per_page as int);
        assert(lights_view(window@) =~= listing(m@).subrange(lo, hi));
    }
    window
}

} // verus!
