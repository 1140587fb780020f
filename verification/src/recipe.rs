//! Recipes: what they consume, what they produce, and how long they take.

use vstd::prelude::*;

use crate::ids::{CraftingCategory, RecipeId};
use crate::key::KeyEq;
use crate::quantity::Quantity;
use crate::resource::ResourceId;
use crate::text::{join_display, joined, str_eq};

verus! {

/// An input of a recipe: so much of a resource per run.
#[derive(Debug)]
pub struct Ingredient<N> {
    pub resource: ResourceId,
    pub amount: N,
}

impl<N: Quantity> Ingredient<N> {
    /// `amount` of `resource` per run.
    pub fn new(resource: ResourceId, amount: N) -> (i: Self)
        ensures
            i.resource == resource,
            i.amount == amount,
    {
        Ingredient { resource, amount }
    }

    /// The ingredient as text: the amount, `×`, and the resource.
    pub fn describe(&self) -> (s: String)
        ensures
            ingredient_text_ok(*self, s@),
    {
        let mut s = self.amount.format();
        let ghost amount = s@;
        s.append(" × ");
        s.append(self.resource.name());
        proof {
            assert(s@ =~= amount + " × "@ + self.resource@.1);
        }
        s
    }
}

/// The text of the amount `a`: the fixed amount, or the two ends of the
/// range with a dash between them.
pub open spec fn amount_text<N: Quantity>(a: ProductAmount<N>) -> Seq<char> {
    match a {
        ProductAmount::Fixed(n) => n.spec_format()@,
        ProductAmount::Range { min, max } => min.spec_format()@ + "–"@ + max.spec_format()@,
    }
}

/// `s` is the text of the amount `a`.
pub open spec fn amount_text_ok<N: Quantity>(a: ProductAmount<N>, s: Seq<char>) -> bool {
    s == amount_text(a)
}

/// The text of a product, given the text of its amount and, when it is
/// shown, of its probability.
pub open spec fn product_text(amount: Seq<char>, name: Seq<char>, probability: Option<Seq<char>>) -> Seq<char> {
    match probability {
        None => amount + " × "@ + name,
        Some(p) => amount + " × "@ + name + " (p="@ + p + ")"@,
    }
}

/// `s` is the text of the product `p`: the amount, `×` and the resource,
/// then the probability when it is below one.
pub open spec fn product_text_ok<N: Quantity>(p: Product<N>, s: Seq<char>) -> bool {
    s == product_text(
        amount_text(p.amount),
        p.resource@.1,
        if p.probability.spec_less_than(N::spec_one()) {
            Some(p.probability.spec_format()@)
        } else {
            None
        },
    )
}

/// How much of a product one run yields: a fixed amount, or an amount
/// drawn evenly from a range.
#[derive(Debug, Clone, Copy)]
pub enum ProductAmount<N> {
    Fixed(N),
    Range { min: N, max: N },
}

/// The amount yielded on average: the fixed amount, or the sum of the two
/// ends of the range over two.
pub open spec fn expected_spec<N: Quantity>(a: ProductAmount<N>) -> N {
    match a {
        ProductAmount::Fixed(n) => n,
        ProductAmount::Range { min, max } => min.spec_plus(max).spec_over(N::spec_from_u64(2)),
    }
}

/// The amount of a product yielded per run on average: its expected amount
/// times its probability.
pub open spec fn product_yield<N: Quantity>(p: Product<N>) -> N {
    expected_spec(p.amount).spec_times(p.probability)
}

/// The sum, in order from the first, of the yields of the products that
/// `counts` accepts, starting from zero.
pub open spec fn yield_sum<N: Quantity>(products: Seq<Product<N>>, counts: spec_fn(Product<N>) -> bool) -> N
    decreases products.len(),
{
    if products.len() == 0 {
        N::spec_zero()
    } else {
        let rest = yield_sum(products.drop_last(), counts);
        if counts(products.last()) {
            rest.spec_plus(product_yield(products.last()))
        } else {
            rest
        }
    }
}

/// The products named `name`.
pub open spec fn named<N>(name: Seq<char>) -> spec_fn(Product<N>) -> bool {
    |p: Product<N>| p.resource@.1 == name
}

/// The products that are the resource `k` itself.
pub open spec fn being<N>(k: (bool, Seq<char>)) -> spec_fn(Product<N>) -> bool {
    |p: Product<N>| p.resource@ == k
}

impl<N: Quantity> ProductAmount<N> {
    /// The amount yielded on average: the fixed amount, or the middle of
    /// the range.
    pub fn expected(&self) -> (r: N)
        ensures
            r == expected_spec(*self),
    {
        match *self {
            ProductAmount::Fixed(n) => n,
            ProductAmount::Range { min, max } => min.plus(max).over(N::from_u64(2)),
        }
    }

    /// The amount as text: the fixed amount, or the two ends of the range.
    pub fn describe(&self) -> (s: String)
        ensures
            amount_text_ok(*self, s@),
    {
        match *self {
            ProductAmount::Fixed(n) => n.format(),
            ProductAmount::Range { min, max } => {
                let mut s = min.format();
                let ghost lo = s@;
                s.append("–");
                let hi = max.format();
                s.append(hi.as_str());
                proof {
                    assert(s@ =~= lo + "–"@ + hi@);
                }
                s
            },
        }
    }
}

/// An output of a recipe, yielded with the given probability.
#[derive(Debug)]
pub struct Product<N> {
    pub resource: ResourceId,
    pub amount: ProductAmount<N>,
    pub probability: N,
}

impl<N: Quantity> Product<N> {
    /// `amount` of `resource` per run, yielded with `probability`.
    pub fn new(resource: ResourceId, amount: ProductAmount<N>, probability: N) -> (p: Self)
        ensures
            p.resource == resource,
            p.amount == amount,
            p.probability == probability,
    {
        Product { resource, amount, probability }
    }

    /// The amount yielded per run on average: the expected amount times the
    /// probability.
    pub fn expected_amount(&self) -> (r: N)
        ensures
            r == product_yield(*self),
    {
        self.amount.expected().times(self.probability)
    }

    /// The product as text: the amount, `×`, and the resource, then the
    /// probability when it is below one.
    pub fn describe(&self) -> (s: String)
        ensures
            product_text_ok(*self, s@),
    {
        let mut s = self.amount.describe();
        let ghost amount = s@;
        s.append(" × ");
        s.append(self.resource.name());
        if self.probability.less_than(N::one()) {
            s.append(" (p=");
            let p = self.probability.format();
            s.append(p.as_str());
            s.append(")");
            proof {
                assert(s@ == product_text(amount, self.resource@.1, Some(p@)));
            }
        } else {
            proof {
                assert(s@ == product_text(amount, self.resource@.1, None));
            }
        }
        s
    }
}

/// A recipe: in its crafting category, it turns the ingredients into the
/// products in `crafting_time` seconds at crafting speed one.
#[derive(Debug)]
pub struct Recipe<N> {
    pub id: RecipeId,
    pub category: CraftingCategory,
    pub ingredients: Vec<Ingredient<N>>,
    pub products: Vec<Product<N>>,
    pub crafting_time: N,
    pub allow_productivity: bool,
}

/// The text of a recipe, given the texts of its ingredients, its products
/// and its crafting time: the id, the ingredients (when there is any text
/// of them), an arrow, the products, and the time and the category in
/// parentheses.
pub open spec fn recipe_text(
    id: Seq<char>,
    ingredients: Seq<char>,
    products: Seq<char>,
    time: Seq<char>,
    category: Seq<char>,
) -> Seq<char> {
    let tail = " → "@ + products + " ("@ + time + "s, "@ + category + ")"@;
    if ingredients.len() == 0 {
        id + tail
    } else {
        id + ": "@ + ingredients + tail
    }
}

/// `s` is the text of the ingredient `i`.
pub open spec fn ingredient_text_ok<N: Quantity>(i: Ingredient<N>, s: Seq<char>) -> bool {
    s == i.amount.spec_format()@ + " × "@ + i.resource@.1
}

/// `s` is the text of the recipe `r`: its ingredients and its products each
/// as text, joined with ` + `, and its crafting time.
pub open spec fn recipe_text_ok<N: Quantity>(r: Recipe<N>, s: Seq<char>) -> bool {
    let time = r.crafting_time.spec_format()@;
    exists|ingredients: Seq<Seq<char>>, products: Seq<Seq<char>>|
        {
            &&& ingredients.len() == r.ingredients@.len()
            &&& forall|i: int| 0 <= i < ingredients.len() ==> ingredient_text_ok(r.ingredients@[i], #[trigger] ingredients[i])
            &&& products.len() == r.products@.len()
            &&& forall|i: int| 0 <= i < products.len() ==> product_text_ok(r.products@[i], #[trigger] products[i])
            &&& s == recipe_text(r.id@, joined(ingredients, " + "@), joined(products, " + "@), time, r.category@)
        }
}

/// Some product of `products` is a resource named `name`.
pub open spec fn produces_name<N>(products: Seq<Product<N>>, name: Seq<char>) -> bool {
    exists|i: int| 0 <= i < products.len() && #[trigger] products[i].resource@.1 == name
}

/// Some product of `products` is the resource `k` itself (of the same kind
/// and name).
pub open spec fn makes_resource<N>(products: Seq<Product<N>>, k: (bool, Seq<char>)) -> bool {
    exists|j: int| 0 <= j < products.len() && #[trigger] products[j].resource@ == k
}

/// Some ingredient of `ingredients` is the resource `k` itself (of the
/// same kind and name).
pub open spec fn takes_resource<N>(ingredients: Seq<Ingredient<N>>, k: (bool, Seq<char>)) -> bool {
    exists|j: int| 0 <= j < ingredients.len() && #[trigger] ingredients[j].resource@ == k
}

/// Some ingredient of `ingredients` is a resource named `name`.
pub open spec fn consumes_name<N>(ingredients: Seq<Ingredient<N>>, name: Seq<char>) -> bool {
    exists|i: int| 0 <= i < ingredients.len() && #[trigger] ingredients[i].resource@.1 == name
}

impl<N: Quantity> Recipe<N> {
    /// Whether some product is named `resource_name` (an item or a fluid).
    pub fn produces(&self, resource_name: &str) -> (b: bool)
        ensures
            b == produces_name(self.products@, resource_name@),
    {
        let n = self.products.len();
        let mut i: usize = 0;
        while i < n
            invariant
                n == self.products@.len(),
                i <= n,
                forall|j: int| 0 <= j < i ==> #[trigger] self.products@[j].resource@.1 != resource_name@,
            decreases n - i,
        {
            proof {
                assert(self.products@.take(i + 1).drop_last() =~= self.products@.take(i as int));
            }
            if str_eq(self.products[i].resource.name(), resource_name) {
                return true;
            }
            i = i + 1;
        }
        false
    }

    /// Whether some ingredient is named `resource_name` (an item or a fluid).
    pub fn consumes(&self, resource_name: &str) -> (b: bool)
        ensures
            b == consumes_name(self.ingredients@, resource_name@),
    {
        let n = self.ingredients.len();
        let mut i: usize = 0;
        while i < n
            invariant
                n == self.ingredients@.len(),
                i <= n,
                forall|j: int| 0 <= j < i ==> #[trigger] self.ingredients@[j].resource@.1 != resource_name@,
            decreases n - i,
        {
            if str_eq(self.ingredients[i].resource.name(), resource_name) {
                return true;
            }
            i = i + 1;
        }
        false
    }

    /// The recipe as text: its id, its ingredients, an arrow, its products,
    /// and its crafting time and category.
    pub fn describe(&self) -> (s: String)
        ensures
            recipe_text_ok(*self, s@),
    {
        let mut ingredient_texts: Vec<String> = Vec::new();
        let n = self.ingredients.len();
        let mut i: usize = 0;
        while i < n
            invariant
                n == self.ingredients@.len(),
                i <= n,
                ingredient_texts@.len() == i,
                forall|j: int|
                    0 <= j < i ==> ingredient_text_ok(self.ingredients@[j], #[trigger] ingredient_texts@[j]@),
            decreases n - i,
        {
            let t = self.ingredients[i].describe();
            ingredient_texts.push(t);
            i = i + 1;
        }
        let mut product_texts: Vec<String> = Vec::new();
        let m = self.products.len();
        let mut i: usize = 0;
        while i < m
            invariant
                m == self.products@.len(),
                i <= m,
                product_texts@.len() == i,
                forall|j: int| 0 <= j < i ==> product_text_ok(self.products@[j], #[trigger] product_texts@[j]@),
            decreases m - i,
        {
            let t = self.products[i].describe();
            product_texts.push(t);
            i = i + 1;
        }
        let ingredients = join_display(&ingredient_texts, " + ");
        let products = join_display(&product_texts, " + ");
        let time = self.crafting_time.format();
        let mut s = self.id.as_str().to_owned();
        if ingredients.as_str().unicode_len() != 0 {
            s.append(": ");
            s.append(ingredients.as_str());
        }
        s.append(" → ");
        s.append(products.as_str());
        s.append(" (");
        s.append(time.as_str());
        s.append("s, ");
        s.append(self.category.as_str());
        s.append(")");
        proof {
            let iv = ingredient_texts@.map_values(|p: String| p@);
            let pv = product_texts@.map_values(|p: String| p@);
            assert forall|j: int| 0 <= j < iv.len() implies ingredient_text_ok(self.ingredients@[j], #[trigger] iv[j]) by {
                assert(iv[j] == ingredient_texts@[j]@);
            }
            assert forall|j: int| 0 <= j < pv.len() implies product_text_ok(self.products@[j], #[trigger] pv[j]) by {
                assert(pv[j] == product_texts@[j]@);
            }
            assert(s@ =~= recipe_text(self.id@, joined(iv, " + "@), joined(pv, " + "@), time@, self.category@));
        }
        s
    }

    /// Whether some product is `resource` itself, of the same kind and name.
    pub fn produces_resource(&self, resource: &ResourceId) -> (b: bool)
        ensures
            b == makes_resource(self.products@, resource@),
    {
        let n = self.products.len();
        let mut i: usize = 0;
        while i < n
            invariant
                n == self.products@.len(),
                i <= n,
                forall|j: int| 0 <= j < i ==> #[trigger] self.products@[j].resource@ != resource@,
            decreases n - i,
        {
            if self.products[i].resource.key_eq(resource) {
                return true;
            }
            i = i + 1;
        }
        false
    }

    /// Whether some ingredient is `resource` itself, of the same kind and
    /// name.
    pub fn consumes_resource(&self, resource: &ResourceId) -> (b: bool)
        ensures
            b == takes_resource(self.ingredients@, resource@),
    {
        let n = self.ingredients.len();
        let mut i: usize = 0;
        while i < n
            invariant
                n == self.ingredients@.len(),
                i <= n,
                forall|j: int| 0 <= j < i ==> #[trigger] self.ingredients@[j].resource@ != resource@,
            decreases n - i,
        {
            if self.ingredients[i].resource.key_eq(resource) {
                return true;
            }
            i = i + 1;
        }
        false
    }

    /// The amount of `resource` itself that one run yields on average: the
    /// sum of the expected amounts of the products that are `resource`, in
    /// order.
    pub fn expected_yield_of(&self, resource: &ResourceId) -> (r: N)
        ensures
            r == yield_sum(self.products@, being::<N>(resource@)),
    {
        let n = self.products.len();
        let mut total = N::zero();
        let mut i: usize = 0;
        proof {
            assert(self.products@.take(0) =~= Seq::<Product<N>>::empty());
        }
        while i < n
            invariant
                n == self.products@.len(),
                i <= n,
                total == yield_sum(self.products@.take(i as int), being::<N>(resource@)),
            decreases n - i,
        {
            proof {
                assert(self.products@.take(i + 1).drop_last() =~= self.products@.take(i as int));
            }
            if self.products[i].resource.key_eq(resource) {
                total = total.plus(self.products[i].expected_amount());
            }
            i = i + 1;
        }
        proof {
            assert(self.products@.take(n as int) =~= self.products@);
        }
        total
    }

    /// The amount of `resource_name` that one run yields on average: the sum
    /// of the expected amounts of the products of that name, in order.
    pub fn expected_yield(&self, resource_name: &str) -> (r: N)
        ensures
            r == yield_sum(self.products@, named::<N>(resource_name@)),
    {
        let n = self.products.len();
        let mut total = N::zero();
        let mut i: usize = 0;
        proof {
            assert(self.products@.take(0) =~= Seq::<Product<N>>::empty());
        }
        while i < n
            invariant
                n == self.products@.len(),
                i <= n,
                total == yield_sum(self.products@.take(i as int), named::<N>(resource_name@)),
            decreases n - i,
        {
            proof {
                assert(self.products@.take(i + 1).drop_last() =~= self.products@.take(i as int));
            }
            if str_eq(self.products[i].resource.name(), resource_name) {
                total = total.plus(self.products[i].expected_amount());
            }
            i = i + 1;
        }
        proof {
            assert(self.products@.take(n as int) =~= self.products@);
        }
        total
    }
}

} // verus!
