//! Items, fluids, and the resources that recipes consume and produce.

use vstd::prelude::*;

use crate::ids::{FluidId, ItemId};
use crate::key::KeyEq;
use crate::quantity::Quantity;
use crate::text::{decimal, decimal_string};

verus! {

/// The size in pixels of an icon whose prototype gives none.
pub const DEFAULT_ICON_SIZE: u32 = 64;

/// A reference to an icon file of the game, such as
/// `__base__/graphics/icons/iron-plate.png`.
#[derive(Debug)]
pub struct IconRef {
    pub path: String,
    pub size: u32,
}

impl IconRef {
    /// An icon at `path` drawn at `size` pixels.
    pub fn new(path: &str, size: u32) -> (icon: Self)
        ensures
            icon.path@ == path@,
            icon.size == size,
    {
        IconRef { path: path.to_owned(), size }
    }

    /// The icon as text: its path, then its size in pixels in parentheses.
    pub fn describe(&self) -> (s: String)
        ensures
            s@ == self.path@ + " ("@ + decimal(self.size as nat) + "px)"@,
    {
        let mut s = self.path.clone();
        s.append(" (");
        let size = decimal_string(self.size as usize);
        s.append(size.as_str());
        s.append("px)");
        s
    }
}

impl Clone for IconRef {
    fn clone(&self) -> (icon: Self)
        ensures
            icon.path@ == self.path@,
            icon.size == self.size,
    {
        IconRef { path: self.path.clone(), size: self.size }
    }
}

/// A resource: an item or a fluid, named.
#[derive(Debug)]
pub enum ResourceId {
    Item(ItemId),
    Fluid(FluidId),
}

impl View for ResourceId {
    /// Whether the resource is a fluid, and its name.
    type V = (bool, Seq<char>);

    open spec fn view(&self) -> (bool, Seq<char>) {
        match self {
            ResourceId::Item(id) => (false, id@),
            ResourceId::Fluid(id) => (true, id@),
        }
    }
}

impl ResourceId {
    /// The item with the given name.
    pub fn item(name: &str) -> (r: Self)
        ensures
            r@ == (false, name@),
    {
        ResourceId::Item(ItemId::new(name))
    }

    /// The fluid with the given name.
    pub fn fluid(name: &str) -> (r: Self)
        ensures
            r@ == (true, name@),
    {
        ResourceId::Fluid(FluidId::new(name))
    }

    /// The name of the item or fluid.
    pub fn name(&self) -> (s: &str)
        ensures
            s@ == self@.1,
    {
        match self {
            ResourceId::Item(id) => id.as_str(),
            ResourceId::Fluid(id) => id.as_str(),
        }
    }

    /// Whether this is an item.
    pub fn is_item(&self) -> (b: bool)
        ensures
            b == !self@.0,
    {
        match self {
            ResourceId::Item(_) => true,
            ResourceId::Fluid(_) => false,
        }
    }

    /// Whether this is a fluid.
    pub fn is_fluid(&self) -> (b: bool)
        ensures
            b == self@.0,
    {
        match self {
            ResourceId::Item(_) => false,
            ResourceId::Fluid(_) => true,
        }
    }
}

impl Clone for ResourceId {
    fn clone(&self) -> (r: Self)
        ensures
            r@ == self@,
    {
        match self {
            ResourceId::Item(id) => ResourceId::Item(id.clone()),
            ResourceId::Fluid(id) => ResourceId::Fluid(id.clone()),
        }
    }
}

impl KeyEq for ResourceId {
    fn key_eq(&self, other: &Self) -> (r: bool) {
        match (self, other) {
            (ResourceId::Item(a), ResourceId::Item(b)) => a.key_eq(b),
            (ResourceId::Fluid(a), ResourceId::Fluid(b)) => a.key_eq(b),
            _ => false,
        }
    }
}

impl PartialEq for ResourceId {
    fn eq(&self, other: &Self) -> (r: bool) {
        self.key_eq(other)
    }
}

impl vstd::std_specs::cmp::PartialEqSpecImpl for ResourceId {
    open spec fn obeys_eq_spec() -> bool {
        true
    }

    open spec fn eq_spec(&self, other: &ResourceId) -> bool {
        self@ == other@
    }
}

impl Eq for ResourceId {
}

/// An item: something that is carried in stacks.
#[derive(Debug)]
pub struct Item {
    pub id: ItemId,
    pub stack_size: u32,
    pub icon: Option<IconRef>,
}

/// A fluid, with the temperature it has by default.
#[derive(Debug)]
pub struct Fluid<N> {
    pub id: FluidId,
    pub default_temperature: N,
    pub icon: Option<IconRef>,
}

impl<N: Quantity> Fluid<N> {
    /// The fluid as text: its default temperature in degrees Celsius, in
    /// brackets.
    pub fn describe(&self) -> (s: String)
        ensures
            s@ == "["@ + self.default_temperature.spec_format()@ + "°C]"@,
    {
        let mut s = "[".to_owned();
        let t = self.default_temperature.format();
        s.append(t.as_str());
        s.append("°C]");
        proof {
            assert(s@ =~= "["@ + t@ + "°C]"@);
        }
        s
    }
}

} // verus!
