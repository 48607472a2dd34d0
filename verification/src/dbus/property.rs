use std::marker::PhantomData;
use vstd::prelude::*;

use crate::dbus::proxy_access::HasProxy;

verus! {

/// A read-only D-Bus property of an object, named by the interface's
/// property name and read as a `T`.
pub struct Property<'a, O: ?Sized, T> {
    owner: &'a O,
    name: &'static str,
    _marker: PhantomData<T>,
}

impl<'a, O: ?Sized, T> Property<'a, O, T> {
    /// The object the property belongs to.
    pub closed spec fn owner_of(&self) -> &'a O {
        self.owner
    }

    /// The property's name.
    pub closed spec fn name_of(&self) -> &'static str {
        self.name
    }

    /// A property `name` of `owner`.
    pub fn new(owner: &'a O, name: &'static str) -> (r: Self)
        ensures
            r.owner_of() == owner,
            r.name_of() == name,
    {
        Self { owner, name, _marker: PhantomData }
    }

    /// The property's name.
    pub fn name(&self) -> (r: &'static str)
        ensures
            r == self.name_of(),
    {
        self.name
    }

    /// The object the property belongs to.
    pub fn owner(&self) -> (r: &'a O)
        ensures
            r == self.owner_of(),
    {
        self.owner
    }
}

/// A D-Bus property that can be written as well as read; it is read as an
/// `R` and written as a `W`.
pub struct WritableProperty<'a, O: ?Sized, R, W = R> {
    owner: &'a O,
    name: &'static str,
    _marker: PhantomData<(R, W)>,
}

impl<'a, O: ?Sized, R, W> WritableProperty<'a, O, R, W> {
    /// The object the property belongs to.
    pub closed spec fn owner_of(&self) -> &'a O {
        self.owner
    }

    /// The property's name.
    pub closed spec fn name_of(&self) -> &'static str {
        self.name
    }

    /// A writable property `name` of `owner`.
    pub fn new(owner: &'a O, name: &'static str) -> (r: Self)
        ensures
            r.owner_of() == owner,
            r.name_of() == name,
    {
        Self { owner, name, _marker: PhantomData }
    }

    /// The property's name.
    pub fn name(&self) -> (r: &'static str)
        ensures
            r == self.name_of(),
    {
        self.name
    }

    /// The object the property belongs to.
    pub fn owner(&self) -> (r: &'a O)
        ensures
            r == self.owner_of(),
    {
        self.owner
    }
}

/// Accessors for the properties of any object that has a proxy.
pub trait PropertyAccess: HasProxy {
    /// The read-only property `name` of this object.
    fn prop<T>(&self, name: &'static str) -> (r: Property<'_, Self, T>) where Self: Sized
        ensures
            r.owner_of() == self,
            r.name_of() == name,
    {
        Property::new(self, name)
    }

    /// The writable property `name` of this object.
    fn prop_rw<T>(&self, name: &'static str) -> (r: WritableProperty<'_, Self, T>) where
        Self: Sized,
        ensures
            r.owner_of() == self,
            r.name_of() == name,
    {
        WritableProperty::new(self, name)
    }
}

impl<T: HasProxy + Sized> PropertyAccess for T {

}

} // verus!
