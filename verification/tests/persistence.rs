use recipe_service::engine::{
    create_recipe, delete_recipe, get_recipe, list_recipes, search, update, EngineError,
    StoreFaults,
};
use recipe_service::recipe::{
    create_image_url, page_slice, recipe_image_path, recipe_path, Ingredient, LightweightRecipe,
    MeasurementType, RecipeBody, SearchQuery,
};
use recipe_service::store::{BlobStore, MetadataStore};
use recipe_service::token::TokenCodec;
use recipe_service::user::{
    create_user, delete_user, login, retrieve_self_user, update_user, User, UserError,
};

const NOW: i64 = 1_700_000_000;

fn codec() -> TokenCodec {
    TokenCodec::new(b"a test signing key of fair length".to_vec())
}

fn no_faults() -> StoreFaults {
    StoreFaults::none()
}

fn soup_body() -> RecipeBody {
    RecipeBody {
        preparation_time: 300,
        cooking_time: 600,
        ingredients: vec![Ingredient {
            name: "Salt".to_string(),
            amount: 5,
            measurement: MeasurementType::Grams,
        }],
        steps: vec!["Boil water".to_string()],
    }
}

fn credentials(name: &str, password: &str) -> User {
    User { username: name.to_string(), password: password.to_string() }
}

fn assert_same_body(a: &RecipeBody, b: &RecipeBody) {
    assert_eq!(a.preparation_time, b.preparation_time);
    assert_eq!(a.cooking_time, b.cooking_time);
    assert_eq!(a.ingredients.len(), b.ingredients.len());
    for (x, y) in a.ingredients.iter().zip(b.ingredients.iter()) {
        assert_eq!(x.name, y.name);
        assert_eq!(x.amount, y.amount);
        assert_eq!(x.measurement, y.measurement);
    }
    assert_eq!(a.steps, b.steps);
}

#[test]
fn full_scenario_alice_and_bob() {
    let mut m = MetadataStore::new();
    let mut blobs = BlobStore::new();
    let c = codec();

    // alice registers and logs in; her token carries her id and lasts an hour
    let alice = credentials("alice", "correct horse battery staple");
    let alice_id = create_user(&mut m, &alice, NOW, false).expect("registration succeeds");
    let t1 = login(&m, &c, &alice, NOW).expect("login succeeds");
    let claims1 = c.verify(&t1, NOW).expect("fresh login token verifies");
    assert_eq!(claims1.sub, alice_id);
    assert_eq!(claims1.exp, NOW + 3600);

    // alice creates the soup recipe
    let created = create_recipe(
        &mut m,
        &mut blobs,
        claims1.sub,
        "Soup".to_string(),
        None,
        soup_body(),
        None,
        NOW,
        no_faults(),
    )
    .expect("create succeeds");
    let n = created.meta.id;
    assert_eq!(created.meta.author, alice_id);
    assert_eq!(created.meta.name, "Soup");

    // a read of the assigned id returns the same structure
    let fetched = get_recipe(&m, &blobs, n).expect("read succeeds");
    assert_eq!(fetched.meta.id, n);
    assert_eq!(fetched.meta.name, "Soup");
    assert_same_body(&fetched.body, &soup_body());

    // bob logs in and tries to delete alice's recipe
    let bob = credentials("bob", "hunter2hunter2");
    let bob_id = create_user(&mut m, &bob, NOW, false).expect("bob registers");
    let t2 = login(&m, &c, &bob, NOW).expect("bob logs in");
    let claims2 = c.verify(&t2, NOW).expect("bob's token verifies");
    assert_eq!(claims2.sub, bob_id);
    assert_ne!(bob_id, alice_id);
    assert_eq!(
        delete_recipe(&mut m, &mut blobs, n, claims2.sub, no_faults()),
        Err(EngineError::Forbidden)
    );

    // alice deletes it herself; afterwards it is gone
    delete_recipe(&mut m, &mut blobs, n, claims1.sub, no_faults()).expect("owner may delete");
    assert!(matches!(get_recipe(&m, &blobs, n), Err(EngineError::NotFound)));
}

#[test]
fn ownership_gate_blocks_update_too() {
    let mut m = MetadataStore::new();
    let mut blobs = BlobStore::new();
    let a = create_user(&mut m, &credentials("a", "pw-a-123456"), NOW, false).unwrap();
    let b = create_user(&mut m, &credentials("b", "pw-b-123456"), NOW, false).unwrap();
    let rec = create_recipe(
        &mut m, &mut blobs, a, "Stew".to_string(), None, soup_body(), None, NOW, no_faults(),
    )
    .unwrap();
    let r = update(
        &mut m,
        &mut blobs,
        rec.meta.id,
        b,
        "Hijacked".to_string(),
        None,
        soup_body(),
        NOW + 1,
        no_faults(),
    );
    assert_eq!(r, Err(EngineError::Forbidden));
    let after = get_recipe(&m, &blobs, rec.meta.id).unwrap();
    assert_eq!(after.meta.name, "Stew");
}

#[test]
fn create_failure_leaves_no_orphaned_row() {
    let mut m = MetadataStore::new();
    let mut blobs = BlobStore::new();
    let a = create_user(&mut m, &credentials("a", "pw-a-123456"), NOW, false).unwrap();

    for faults in [
        StoreFaults { metadata: true, body: false, image: false },
        StoreFaults { metadata: false, body: true, image: false },
        StoreFaults { metadata: false, body: false, image: true },
    ] {
        let r = create_recipe(
            &mut m,
            &mut blobs,
            a,
            "Doomed".to_string(),
            None,
            soup_body(),
            Some(vec![1u8, 2, 3]),
            NOW,
            faults,
        );
        assert!(matches!(r, Err(EngineError::StorageFailure)));
        // no id that search or read could discover was left behind
        assert!(m.recipes.is_empty());
        assert!(blobs.bodies.is_empty());
        assert!(blobs.images.is_empty());
    }

    // the same create with no faults succeeds and is immediately readable
    let rec = create_recipe(
        &mut m,
        &mut blobs,
        a,
        "Alive".to_string(),
        Some("with image".to_string()),
        soup_body(),
        Some(vec![9u8, 9]),
        NOW,
        no_faults(),
    )
    .unwrap();
    let key = rec.meta.image.clone().expect("an image key was recorded");
    assert_eq!(key.len(), 36);
    let back = get_recipe(&m, &blobs, rec.meta.id).unwrap();
    assert_same_body(&back.body, &soup_body());
    assert_eq!(back.meta.image.as_deref(), Some(key.as_str()));
}

#[test]
fn create_rejects_unknown_or_deleted_author() {
    let mut m = MetadataStore::new();
    let mut blobs = BlobStore::new();
    let r = create_recipe(
        &mut m, &mut blobs, 12, "x".to_string(), None, soup_body(), None, NOW, no_faults(),
    );
    assert!(matches!(r, Err(EngineError::NoSuchUser)));

    let a = create_user(&mut m, &credentials("a", "pw-a-123456"), NOW, false).unwrap();
    delete_user(&mut m, a).unwrap();
    let r = create_recipe(
        &mut m, &mut blobs, a, "x".to_string(), None, soup_body(), None, NOW, no_faults(),
    );
    assert!(matches!(r, Err(EngineError::NoSuchUser)));
}

#[test]
fn soft_delete_is_idempotent_and_hides_the_row() {
    let mut m = MetadataStore::new();
    let mut blobs = BlobStore::new();
    let a = create_user(&mut m, &credentials("a", "pw-a-123456"), NOW, false).unwrap();
    let rec = create_recipe(
        &mut m, &mut blobs, a, "Pasta".to_string(), None, soup_body(), None, NOW, no_faults(),
    )
    .unwrap();
    let n = rec.meta.id;

    // deleting a nonexistent id is NotFound both times
    assert_eq!(delete_recipe(&mut m, &mut blobs, n + 1, a, no_faults()), Err(EngineError::NotFound));
    assert_eq!(delete_recipe(&mut m, &mut blobs, n + 1, a, no_faults()), Err(EngineError::NotFound));

    delete_recipe(&mut m, &mut blobs, n, a, no_faults()).unwrap();
    // a second delete of the same id is NotFound, not an error or a success
    assert_eq!(delete_recipe(&mut m, &mut blobs, n, a, no_faults()), Err(EngineError::NotFound));
    // and the row is invisible to read and search despite direct id lookup
    assert!(matches!(get_recipe(&m, &blobs, n), Err(EngineError::NotFound)));
    let q = SearchQuery {
        name: Some("Pasta".to_string()),
        description: None,
        author: None,
        limit: None,
    };
    let found = search(&m, &blobs, &q).unwrap();
    assert!(found.is_empty());
}

#[test]
fn search_cap_rejects_oversized_limits_before_any_work() {
    let m = MetadataStore::new();
    let blobs = BlobStore::new();
    let q = SearchQuery {
        name: Some("Soup".to_string()),
        description: None,
        author: None,
        limit: Some(300),
    };
    assert_eq!(search(&m, &blobs, &q).unwrap_err(), EngineError::PayloadTooLarge);
    let q = SearchQuery { name: Some("Soup".to_string()), description: None, author: None, limit: Some(-1) };
    assert_eq!(search(&m, &blobs, &q).unwrap_err(), EngineError::BadRequest);
    let q = SearchQuery { name: None, description: None, author: None, limit: Some(10) };
    assert_eq!(search(&m, &blobs, &q).unwrap_err(), EngineError::BadRequest);
}

#[test]
fn search_filters_conjunctively_and_caps_results() {
    let mut m = MetadataStore::new();
    let mut blobs = BlobStore::new();
    let cook = create_user(&mut m, &credentials("cook", "pw-123456789"), NOW, false).unwrap();
    let chef = create_user(&mut m, &credentials("grandchef", "pw-123456789"), NOW, false).unwrap();
    for (author, name, desc) in [
        (cook, "Tomato Soup", Some("warming")),
        (cook, "Pumpkin Soup", Some("sweet and warming")),
        (chef, "Onion Soup", Some("warming")),
        (chef, "Green Salad", None),
    ] {
        create_recipe(
            &mut m,
            &mut blobs,
            author,
            name.to_string(),
            desc.map(|d| d.to_string()),
            soup_body(),
            None,
            NOW,
            no_faults(),
        )
        .unwrap();
    }

    let q = SearchQuery { name: Some("Soup".to_string()), description: None, author: None, limit: None };
    assert_eq!(search(&m, &blobs, &q).unwrap().len(), 3);

    // name and author filters are conjunctive; the author matches by substring
    let q = SearchQuery {
        name: Some("Soup".to_string()),
        description: Some("warming".to_string()),
        author: Some("chef".to_string()),
        limit: None,
    };
    let found = search(&m, &blobs, &q).unwrap();
    assert_eq!(found.len(), 1);
    assert_eq!(found[0].meta.name, "Onion Soup");

    // the cap keeps the first matches in store order
    let q = SearchQuery { name: Some("Soup".to_string()), description: None, author: None, limit: Some(2) };
    let found = search(&m, &blobs, &q).unwrap();
    assert_eq!(found.len(), 2);
    assert_eq!(found[0].meta.name, "Tomato Soup");
    assert_eq!(found[1].meta.name, "Pumpkin Soup");

    // no match is an empty result, not an error
    let q = SearchQuery { name: Some("Sushi".to_string()), description: None, author: None, limit: None };
    assert!(search(&m, &blobs, &q).unwrap().is_empty());
}

#[test]
fn update_replaces_metadata_and_body() {
    let mut m = MetadataStore::new();
    let mut blobs = BlobStore::new();
    let a = create_user(&mut m, &credentials("a", "pw-a-123456"), NOW, false).unwrap();
    let rec = create_recipe(
        &mut m, &mut blobs, a, "Old".to_string(), None, soup_body(), None, NOW, no_faults(),
    )
    .unwrap();
    let mut new_body = soup_body();
    new_body.cooking_time = 1200;
    new_body.steps.push("Simmer".to_string());
    update(
        &mut m,
        &mut blobs,
        rec.meta.id,
        a,
        "New".to_string(),
        Some("better".to_string()),
        new_body,
        NOW + 50,
        no_faults(),
    )
    .unwrap();
    let after = get_recipe(&m, &blobs, rec.meta.id).unwrap();
    assert_eq!(after.meta.name, "New");
    assert_eq!(after.meta.description.as_deref(), Some("better"));
    assert_eq!(after.meta.edited_at, Some(NOW + 50));
    assert_eq!(after.body.cooking_time, 1200);
    assert_eq!(after.body.steps.len(), 2);

    // absent and deleted ids are NotFound
    assert_eq!(
        update(
            &mut m,
            &mut blobs,
            rec.meta.id + 7,
            a,
            "x".to_string(),
            None,
            soup_body(),
            NOW,
            no_faults(),
        ),
        Err(EngineError::NotFound)
    );
}

#[test]
fn update_body_fault_keeps_old_content_and_is_retryable() {
    let mut m = MetadataStore::new();
    let mut blobs = BlobStore::new();
    let a = create_user(&mut m, &credentials("a", "pw-a-123456"), NOW, false).unwrap();
    let rec = create_recipe(
        &mut m, &mut blobs, a, "Old".to_string(), None, soup_body(), None, NOW, no_faults(),
    )
    .unwrap();
    let mut new_body = soup_body();
    new_body.cooking_time = 999;
    let r = update(
        &mut m,
        &mut blobs,
        rec.meta.id,
        a,
        "New".to_string(),
        None,
        new_body,
        NOW + 5,
        StoreFaults { metadata: false, body: true, image: false },
    );
    assert_eq!(r, Err(EngineError::StorageFailure));
    // the documented window: new metadata, old body
    let after = get_recipe(&m, &blobs, rec.meta.id).unwrap();
    assert_eq!(after.meta.name, "New");
    assert_eq!(after.body.cooking_time, 600);

    // re-applying the same update closes the window
    let mut new_body = soup_body();
    new_body.cooking_time = 999;
    update(&mut m, &mut blobs, rec.meta.id, a, "New".to_string(), None, new_body, NOW + 5, no_faults())
        .unwrap();
    let after = get_recipe(&m, &blobs, rec.meta.id).unwrap();
    assert_eq!(after.body.cooking_time, 999);
}

#[test]
fn registration_conflicts_on_live_names_only() {
    let mut m = MetadataStore::new();
    let a = create_user(&mut m, &credentials("dora", "pw-123456789"), NOW, false).unwrap();
    assert_eq!(
        create_user(&mut m, &credentials("dora", "other-pw-42"), NOW, false),
        Err(UserError::Conflict)
    );
    // a deleted account frees its name
    delete_user(&mut m, a).unwrap();
    let b = create_user(&mut m, &credentials("dora", "other-pw-42"), NOW + 1, false).unwrap();
    assert_ne!(a, b);
}

#[test]
fn login_classifies_its_failures() {
    let mut m = MetadataStore::new();
    let c = codec();
    create_user(&mut m, &credentials("eve", "pw-123456789"), NOW, false).unwrap();
    assert!(login(&m, &c, &credentials("eve", "pw-123456789"), NOW).is_ok());
    assert_eq!(
        login(&m, &c, &credentials("eve", "wrong-password"), NOW),
        Err(UserError::InvalidPassword)
    );
    assert_eq!(
        login(&m, &c, &credentials("nobody", "pw-123456789"), NOW),
        Err(UserError::NotFound)
    );
    // registration failures surface the storage fault
    assert_eq!(
        create_user(&mut m, &credentials("fred", "pw-123456789"), NOW, true),
        Err(UserError::StorageFailure)
    );
    // a stored hash that cannot be parsed is an internal fault, not a mismatch
    m.users.push(recipe_service::store::UserRow {
        id: m.next_user_id,
        name: "broken".to_string(),
        hash: "not a phc hash".to_string(),
        deleted: false,
        created_at: NOW,
    });
    m.next_user_id += 1;
    assert_eq!(
        login(&m, &c, &credentials("broken", "anything-at-all"), NOW),
        Err(UserError::Internal)
    );
}

#[test]
fn self_retrieval_update_and_delete() {
    let mut m = MetadataStore::new();
    let a = create_user(&mut m, &credentials("gail", "pw-123456789"), NOW, false).unwrap();
    let b = create_user(&mut m, &credentials("hank", "pw-123456789"), NOW, false).unwrap();

    let me = retrieve_self_user(&m, a).unwrap();
    assert_eq!(me.id, a);
    assert_eq!(me.name, "gail");
    assert_eq!(me.created_at, NOW);

    // renaming onto another live account's name is a conflict
    assert_eq!(
        update_user(&mut m, a, &credentials("hank", "new-pw-12345"), false),
        Err(UserError::Conflict)
    );
    // renaming onto a fresh name (or one's own) is fine
    update_user(&mut m, a, &credentials("gail the great", "new-pw-12345"), false).unwrap();
    let c = codec();
    assert!(login(&m, &c, &credentials("gail the great", "new-pw-12345"), NOW).is_ok());

    // self deletion is NotFound the second time, and hides the account
    delete_user(&mut m, b).unwrap();
    assert_eq!(delete_user(&mut m, b), Err(UserError::NotFound));
    assert!(matches!(retrieve_self_user(&m, b), Err(UserError::NotFound)));
    assert_eq!(update_user(&mut m, b + 100, &credentials("x", "pw-123456789"), false), Err(UserError::NotFound));
}

#[test]
fn blob_keys_and_urls_have_their_documented_shapes() {
    assert_eq!(recipe_path("17"), "storage/recipes/17");
    assert_eq!(recipe_image_path("abc-def"), "storage/images/abc-def");
    assert_eq!(create_image_url("abc-def"), "/cdn/images/abc-def");
    assert_eq!(recipe_path(""), "storage/recipes/");
}

#[test]
fn listing_shows_visible_recipes_in_pages() {
    let mut m = MetadataStore::new();
    let mut blobs = BlobStore::new();
    let a = create_user(&mut m, &credentials("a", "pw-a-123456"), NOW, false).unwrap();
    let mut ids = Vec::new();
    for k in 0..5 {
        let rec = create_recipe(
            &mut m,
            &mut blobs,
            a,
            format!("dish {k}"),
            None,
            soup_body(),
            None,
            NOW + k,
            no_faults(),
        )
        .unwrap();
        ids.push(rec.meta.id);
    }
    delete_recipe(&mut m, &mut blobs, ids[1], a, no_faults()).unwrap();

    // the listing skips the deleted row and keeps store order
    let all = list_recipes(&m, 0, 10);
    let got: Vec<i32> = all.iter().map(|l| l.id).collect();
    assert_eq!(got, vec![ids[0], ids[2], ids[3], ids[4]]);
    assert_eq!(all[0].name, "dish 0");
    assert_eq!(all[0].author, a);
    assert_eq!(all[0].createdat, NOW);

    // pages window the visible rows
    let second_page: Vec<i32> = list_recipes(&m, 1, 2).iter().map(|l| l.id).collect();
    assert_eq!(second_page, vec![ids[3], ids[4]]);
}

fn lightweight(id: i32) -> LightweightRecipe {
    LightweightRecipe {
        id,
        author: 1,
        name: format!("recipe {id}"),
        description: None,
        createdat: NOW,
    }
}

#[test]
fn page_slice_windows_a_listing() {
    let items: Vec<LightweightRecipe> = (0..7).map(lightweight).collect();
    let ids = |v: Vec<LightweightRecipe>| v.into_iter().map(|r| r.id).collect::<Vec<_>>();

    assert_eq!(ids(page_slice(&items, 0, 3)), vec![0, 1, 2]);
    assert_eq!(ids(page_slice(&items, 1, 3)), vec![3, 4, 5]);
    // a trailing page is pulled back so it is still full
    assert_eq!(ids(page_slice(&items, 2, 3)), vec![4, 5, 6]);
    assert_eq!(ids(page_slice(&items, 50, 3)), vec![4, 5, 6]);
    // more rows per page than items yields everything
    assert_eq!(ids(page_slice(&items, 0, 20)), vec![0, 1, 2, 3, 4, 5, 6]);
    let empty: Vec<LightweightRecipe> = Vec::new();
    assert!(page_slice(&empty, 0, 10).is_empty());
}
