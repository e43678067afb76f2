//! Recipe payload and query types: the structured body stored out of band in
//! the blob store, the lightweight row projection that listings return, and
//! the search query shape, together with the blob key/path helpers and the
//! listing pagination rule.

use vstd::prelude::*;
use vstd::string::*;

verus! {

/// Unit of an ingredient amount.
#[derive(Clone, Copy, PartialEq, Eq, Structural, Debug)]
pub enum MeasurementType {
    Grams,
    Liters,
}

/// One ingredient line of a recipe body.
#[derive(Debug)]
pub struct Ingredient {
    pub name: String,
    pub amount: u32,
    pub measurement: MeasurementType,
}

impl Clone for Ingredient {
    fn clone(&self) -> (r: Self)
        ensures
            r == *self,
    {
        Ingredient { name: self.name.clone(), amount: self.amount, measurement: self.measurement }
    }
}

/// The large, semi-structured payload of a recipe. It is stored whole in the
/// blob store, keyed by the recipe's metadata row id, and never queried.
#[derive(Debug)]
pub struct RecipeBody {
    pub preparation_time: u64,
    pub cooking_time: u64,
    pub ingredients: Vec<Ingredient>,
    pub steps: Vec<String>,
}

/// Mathematical model of a recipe body.
#[verifier::ext_equal]
pub struct RecipeBodyV {
    pub preparation_time: u64,
    pub cooking_time: u64,
    pub ingredients: Seq<Ingredient>,
    pub steps: Seq<String>,
}

impl View for RecipeBody {
    type V = RecipeBodyV;

    open spec fn view(&self) -> RecipeBodyV {
        RecipeBodyV {
            preparation_time: self.preparation_time,
            cooking_time: self.cooking_time,
            ingredients: self.ingredients@,
            steps: self.steps@,
        }
    }
}

fn clone_ingredients(v: &Vec<Ingredient>) -> (r: Vec<Ingredient>)
    ensures
        r@ == v@,
{
    let mut r: Vec<Ingredient> = Vec::new();
    let mut i: usize = 0;
    while i < v.len()
        invariant
            i <= v.len(),
            r@ =~= v@.subrange(0, i as int),
        decreases v.len() - i,
    {
        r.push(v[i].clone());
        i += 1;
    }
    proof {
        assert(r@ =~= v@);
    }
    r
}

fn clone_strings(v: &Vec<String>) -> (r: Vec<String>)
    ensures
        r@ == v@,
{
    let mut r: Vec<String> = Vec::new();
    let mut i: usize = 0;
    while i < v.len()
        invariant
            i <= v.len(),
            r@ =~= v@.subrange(0, i as int),
        decreases v.len() - i,
    {
        r.push(v[i].clone());
        i += 1;
    }
    proof {
        assert(r@ =~= v@);
    }
    r
}

impl Clone for RecipeBody {
    fn clone(&self) -> (r: Self)
        ensures
            r@ == self@,
    {
        let r = RecipeBody {
            preparation_time: self.preparation_time,
            cooking_time: self.cooking_time,
            ingredients: clone_ingredients(&self.ingredients),
            steps: clone_strings(&self.steps),
        };
        proof {
            assert(r@ =~= self@);
        }
        r
    }
}

/// The metadata-only projection of a recipe row that listings return.
#[derive(Debug)]
pub struct LightweightRecipe {
    pub id: i32,
    pub author: i32,
    pub name: String,
    pub description: Option<String>,
    pub createdat: i64,
}

/// Mathematical model of a listing entry.
#[verifier::ext_equal]
pub struct LightweightRecipeV {
    pub id: i32,
    pub author: i32,
    pub name: Seq<char>,
    pub description: Option<Seq<char>>,
    pub createdat: i64,
}

impl View for LightweightRecipe {
    type V = LightweightRecipeV;

    open spec fn view(&self) -> LightweightRecipeV {
        LightweightRecipeV {
            id: self.id,
            author: self.author,
            name: self.name@,
            description: match self.description {
                Some(d) => Some(d@),
                None => None,
            },
            createdat: self.createdat,
        }
    }
}

/// The views of a vector of listing entries.
pub open spec fn lights_view(entries: Seq<LightweightRecipe>) -> Seq<LightweightRecipeV> {
    entries.map_values(|l: LightweightRecipe| l@)
}

impl Clone for LightweightRecipe {
    fn clone(&self) -> (r: Self)
        ensures
            r == *self,
    {
        LightweightRecipe {
            id: self.id,
            author: self.author,
            name: self.name.clone(),
            description: match &self.description {
                Some(d) => Some(d.clone()),
                None => None,
            },
            createdat: self.createdat,
        }
    }
}

/// The filters a search may combine: substring matches on the recipe name,
/// its description and its author's user name, and an optional row cap.
#[derive(Debug)]
pub struct SearchQuery {
    pub name: Option<String>,
    pub description: Option<String>,
    pub author: Option<String>,
    pub limit: Option<i16>,
}

/// `n` occurs in `h` starting at position `i`.
pub open spec fn is_substring_at(h: Seq<char>, n: Seq<char>, i: int) -> bool {
    0 <= i && i + n.len() <= h.len() && h.subrange(i, i + n.len()) == n
}

/// `n` occurs somewhere in `h`.
pub open spec fn contains_substring(h: Seq<char>, n: Seq<char>) -> bool {
    exists|i: int| is_substring_at(h, n, i)
}

fn match_at(h: &str, n: &str, i: usize) -> (r: bool)
    requires
        i + n@.len() <= h@.len(),
        i + n@.len() <= usize::MAX,
    ensures
        r == is_substring_at(h@, n@, i as int),
{
    let nl = n.unicode_len();
    let mut j: usize = 0;
    while j < nl
        invariant
            j <= nl,
            nl == n@.len(),
            i + nl <= h@.len(),
            i + nl <= usize::MAX,
            forall|k: int| 0 <= k < j ==> h@[i + k] == n@[k],
        decreases nl - j,
    {
        if h.get_char(i + j) != n.get_char(j) {
            proof {
                assert(h@.subrange(i as int, i + n@.len())[j as int] != n@[j as int]);
            }
            return false;
        }
        j += 1;
    }
    proof {
        assert(h@.subrange(i as int, i + n@.len()) =~= n@);
    }
    true
}

/// Whether `n` occurs in `h` as a contiguous run of characters.
pub fn contains_sub(h: &str, n: &str) -> (r: bool)
    ensures
        r == contains_substring(h@, n@),
{
    let hl = h.unicode_len();
    let nl = n.unicode_len();
    if nl > hl {
        proof {
            assert(forall|i: int| !is_substring_at(h@, n@, i));
        }
        return false;
    }
    if nl == 0 {
        proof {
            assert(h@.subrange(0, 0) =~= n@);
            assert(is_substring_at(h@, n@, 0));
        }
        return true;
    }
    let mut i: usize = 0;
    while i <= hl - nl
        invariant
            1 <= nl <= hl,
            hl == h@.len(),
            nl == n@.len(),
            i <= hl - nl + 1,
            forall|j: int| 0 <= j < i ==> !is_substring_at(h@, n@, j),
        decreases hl - nl + 1 - i,
    {
        if match_at(h, n, i) {
            return true;
        }
        i += 1;
    }
    proof {
        assert(forall|j: int| is_substring_at(h@, n@, j) ==> 0 <= j <= hl - nl);
    }
    false
}

/// Blob key for a recipe body, derived from the row id or a generated token.
pub fn recipe_path(id: &str) -> (r: String)
    ensures
        r@ == "storage/recipes/"@ + id@,
{
    String::from_str("storage/recipes/").concat(id)
}

/// Blob key for a recipe image, derived from a generated token.
pub fn recipe_image_path(name: &str) -> (r: String)
    ensures
        r@ == "storage/images/"@ + name@,
{
    String::from_str("storage/images/").concat(name)
}

/// Public URL under which a stored image is served back to clients.
pub fn create_image_url(file_uuid: &str) -> (r: String)
    ensures
        r@ == "/cdn/images/"@ + file_uuid@,
{
    String::from_str("/cdn/images/").concat(file_uuid)
}

/// First index of the listing page `page` with `per_page` rows each: the
/// requested offset, pulled back so a trailing page is still full when the
/// listing has at least `per_page` rows.
pub open spec fn page_start(len: int, page: int, per_page: int) -> int {
    let floor = if len >= per_page {
        len - per_page
    } else {
        0
    };
    if per_page * page < floor {
        per_page * page
    } else {
        floor
    }
}

/// One past the last index of the listing page.
pub open spec fn page_stop(len: int, page: int, per_page: int) -> int {
    if page_start(len, page, per_page) + per_page < len {
        page_start(len, page, per_page) + per_page
    } else {
        len
    }
}

/// The window of `items` that listing page `page` returns.
pub fn page_slice(items: &Vec<LightweightRecipe>, page: usize, per_page: usize) -> (r: Vec<
    LightweightRecipe,
>)
    requires
        page * per_page <= usize::MAX,
        items@.len() + per_page <= usize::MAX,
    ensures
        r@ == items@.subrange(
            page_start(items@.len() as int, page as int, per_page as int),
            page_stop(items@.len() as int, page as int, per_page as int),
        ),
{
    let len = items.len();
    let floor = if len >= per_page {
        len - per_page
    } else {
        0
    };
    let prod = page * per_page;
    let start = if prod < floor {
        prod
    } else {
        floor
    };
    let stop = if start + per_page < len {
        start + per_page
    } else {
        len
    };
    let ghost gstart = page_start(items@.len() as int, page as int, per_page as int);
    let ghost gstop = page_stop(items@.len() as int, page as int, per_page as int);
    proof {
        assert(page as int * per_page as int == per_page as int * page as int) by (nonlinear_arith);
        assert(start == gstart);
        assert(stop == gstop);
    }
    let mut r: Vec<LightweightRecipe> = Vec::new();
    let mut i: usize = start;
    while i < stop
        invariant
            start <= i <= stop <= items@.len(),
            r@ =~= items@.subrange(start as int, i as int),
        decreases stop - i,
    {
        r.push(items[i].clone());
        i += 1;
    }
    proof {
        assert(r@ =~= items@.subrange(gstart, gstop));
    }
    r
}

} // verus!
