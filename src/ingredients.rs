use vstd::prelude::*;

verus! {

/// The mathematical content of an item or fluid stack.
pub ghost struct IngredientView {
    pub amount: nat,
    pub unlocalized_name: Option<Seq<char>>,
    pub localized_name: Option<Seq<char>>,
}

/// The characters of an optional name.
pub open spec fn name_view(name: Option<String>) -> Option<Seq<char>> {
    match name {
        Some(s) => Some(s@),
        None => None,
    }
}

/// The key under which a stack is aggregated and cancelled: the unlocalized
/// name, or the localized one when there is no unlocalized name.
pub open spec fn identity(v: IngredientView) -> Option<Seq<char>> {
    if v.unlocalized_name is Some {
        v.unlocalized_name
    } else {
        v.localized_name
    }
}

/// The name shown to a reader: the localized name, else the unlocalized one.
pub open spec fn display_name(v: IngredientView) -> Seq<char> {
    match v.localized_name {
        Some(n) => n,
        None => match v.unlocalized_name {
            Some(n) => n,
            None => "ERROR_NAME_NOT_FOUND"@,
        },
    }
}

/// A copy of an optional name.
pub fn copy_name(name: &Option<String>) -> (r: Option<String>)
    ensures
        r == *name,
{
    match name {
        Some(s) => Some(s.clone()),
        None => None,
    }
}

/// Common access to item and fluid stacks, so that aggregation and
/// cancellation are written once for both channels.
pub trait Ingredient: Sized + View<V = IngredientView> {
    fn quantity(&self) -> (r: usize)
        ensures
            r as nat == self@.amount,
    ;

    fn unlocalized(&self) -> (r: &Option<String>)
        ensures
            name_view(*r) == self@.unlocalized_name,
    ;

    fn localized(&self) -> (r: &Option<String>)
        ensures
            name_view(*r) == self@.localized_name,
    ;

    fn assemble(
        amount: usize,
        unlocalized_name: Option<String>,
        localized_name: Option<String>,
    ) -> (r: Self)
        ensures
            r@ == (IngredientView {
                amount: amount as nat,
                unlocalized_name: name_view(unlocalized_name),
                localized_name: name_view(localized_name),
            }),
    ;
}

/// A quantity of a named item.
#[derive(Debug, PartialEq, Eq, Hash)]
pub struct Item {
    pub amount: usize,
    pub unlocalized_name: Option<String>,
    pub localized_name: Option<String>,
}

/// A quantity of a named fluid, in litres.
#[derive(Debug, PartialEq, Eq, Hash)]
pub struct Fluid {
    pub amount: usize,
    pub unlocalized_name: Option<String>,
    pub localized_name: Option<String>,
}

impl View for Item {
    type V = IngredientView;

    open spec fn view(&self) -> IngredientView {
        IngredientView {
            amount: self.amount as nat,
            unlocalized_name: name_view(self.unlocalized_name),
            localized_name: name_view(self.localized_name),
        }
    }
}

impl View for Fluid {
    type V = IngredientView;

    open spec fn view(&self) -> IngredientView {
        IngredientView {
            amount: self.amount as nat,
            unlocalized_name: name_view(self.unlocalized_name),
            localized_name: name_view(self.localized_name),
        }
    }
}

impl Clone for Item {
    fn clone(&self) -> (r: Self)
        ensures
            r == *self,
    {
        Item {
            amount: self.amount,
            unlocalized_name: copy_name(&self.unlocalized_name),
            localized_name: copy_name(&self.localized_name),
        }
    }
}

impl Clone for Fluid {
    fn clone(&self) -> (r: Self)
        ensures
            r == *self,
    {
        Fluid {
            amount: self.amount,
            unlocalized_name: copy_name(&self.unlocalized_name),
            localized_name: copy_name(&self.localized_name),
        }
    }
}

impl Ingredient for Item {
    fn quantity(&self) -> (r: usize) {
        self.amount
    }

    fn unlocalized(&self) -> (r: &Option<String>) {
        &self.unlocalized_name
    }

    fn localized(&self) -> (r: &Option<String>) {
        &self.localized_name
    }

    fn assemble(amount: usize, unlocalized_name: Option<String>, localized_name: Option<String>) -> (r: Self) {
        Item { amount, unlocalized_name, localized_name }
    }
}

impl Ingredient for Fluid {
    fn quantity(&self) -> (r: usize) {
        self.amount
    }

    fn unlocalized(&self) -> (r: &Option<String>) {
        &self.unlocalized_name
    }

    fn localized(&self) -> (r: &Option<String>) {
        &self.localized_name
    }

    fn assemble(amount: usize, unlocalized_name: Option<String>, localized_name: Option<String>) -> (r: Self) {
        Fluid { amount, unlocalized_name, localized_name }
    }
}

impl Item {
    /// An empty stack (amount zero) carrying the given names.
    pub fn new(unlocalized_name: &Option<String>, localized_name: &Option<String>) -> (r: Self)
        ensures
            r.amount == 0,
            r.unlocalized_name == *unlocalized_name,
            r.localized_name == *localized_name,
    {
        Item {
            amount: 0,
            unlocalized_name: copy_name(unlocalized_name),
            localized_name: copy_name(localized_name),
        }
    }

    /// The name to show for this item.
    pub fn get_name(&self) -> (r: String)
        ensures
            r@ == display_name(self@),
    {
        label_of(self)
    }
}

impl Fluid {
    /// The name to show for this fluid.
    pub fn get_name(&self) -> (r: String)
        ensures
            r@ == display_name(self@),
    {
        label_of(self)
    }
}

/// The display name of any stack.
pub fn label_of<T: Ingredient>(x: &T) -> (r: String)
    ensures
        r@ == display_name(x@),
{
    match x.localized() {
        Some(n) => n.clone(),
        None => match x.unlocalized() {
            Some(n) => n.clone(),
            None => {
                proof {
                    reveal_strlit("ERROR_NAME_NOT_FOUND");
                }
                "ERROR_NAME_NOT_FOUND".to_string()
            },
        },
    }
}

} // verus!
