use vstd::prelude::*;

use crate::dom::opt_chars;
use crate::model::common::Version;
use crate::parse::common::strs;

verus! {

/// One D-Bus interface as the reference documents it.
#[derive(Debug, Clone)]
pub struct InterfaceDef {
    pub name: String,
    pub source_url: Option<String>,
    pub description: Vec<String>,
    pub since: Option<Version>,
    pub deprecated: Option<Version>,
    pub object_path_family_label: Option<String>,
    pub object_path_pattern: Option<String>,
    pub methods: Vec<MethodDef>,
    pub properties: Vec<PropertyDef>,
    pub signals: Vec<SignalDef>,
}

#[derive(Debug, Clone)]
pub struct MethodDef {
    pub name: String,
    pub source_url: Option<String>,
    pub description: Vec<String>,
    pub since: Option<Version>,
    pub deprecated: Option<Version>,
    pub inputs: Vec<ArgumentDef>,
    pub outputs: Vec<ArgumentDef>,
}

#[derive(Debug, Clone)]
pub struct PropertyDef {
    pub name: String,
    pub source_url: Option<String>,
    pub description: Vec<String>,
    pub since: Option<Version>,
    pub deprecated: Option<Version>,
    pub signature: Option<String>,
    pub access: Option<PropertyAccess>,
}

#[derive(Debug, Clone)]
pub struct SignalDef {
    pub name: String,
    pub source_url: Option<String>,
    pub description: Vec<String>,
    pub since: Option<Version>,
    pub deprecated: Option<Version>,
    pub args: Vec<ArgumentDef>,
}

#[derive(Debug, Clone)]
pub struct ArgumentDef {
    pub name: Option<String>,
    pub signature: Option<String>,
    pub direction: Option<ArgDirection>,
    pub description: Vec<String>,
}

#[derive(Debug, Clone, Copy, PartialEq, Eq, Structural)]
pub enum ArgDirection {
    In,
    Out,
}

#[derive(Debug, Clone, Copy, PartialEq, Eq, Structural)]
pub enum PropertyAccess {
    Read,
    ReadWrite,
    Write,
}

pub struct ArgumentDefView {
    pub name: Option<Seq<char>>,
    pub signature: Option<Seq<char>>,
    pub direction: Option<ArgDirection>,
    pub description: Seq<Seq<char>>,
}

pub struct MethodDefView {
    pub name: Seq<char>,
    pub source_url: Option<Seq<char>>,
    pub description: Seq<Seq<char>>,
    pub since: Option<Version>,
    pub deprecated: Option<Version>,
    pub inputs: Seq<ArgumentDefView>,
    pub outputs: Seq<ArgumentDefView>,
}

pub struct PropertyDefView {
    pub name: Seq<char>,
    pub source_url: Option<Seq<char>>,
    pub description: Seq<Seq<char>>,
    pub since: Option<Version>,
    pub deprecated: Option<Version>,
    pub signature: Option<Seq<char>>,
    pub access: Option<PropertyAccess>,
}

pub struct SignalDefView {
    pub name: Seq<char>,
    pub source_url: Option<Seq<char>>,
    pub description: Seq<Seq<char>>,
    pub since: Option<Version>,
    pub deprecated: Option<Version>,
    pub args: Seq<ArgumentDefView>,
}

pub struct InterfaceDefView {
    pub name: Seq<char>,
    pub source_url: Option<Seq<char>>,
    pub description: Seq<Seq<char>>,
    pub since: Option<Version>,
    pub deprecated: Option<Version>,
    pub object_path_family_label: Option<Seq<char>>,
    pub object_path_pattern: Option<Seq<char>>,
    pub methods: Seq<MethodDefView>,
    pub properties: Seq<PropertyDefView>,
    pub signals: Seq<SignalDefView>,
}

impl View for ArgumentDef {
    type V = ArgumentDefView;

    open spec fn view(&self) -> ArgumentDefView {
        ArgumentDefView {
            name: opt_chars(self.name),
            signature: opt_chars(self.signature),
            direction: self.direction,
            description: strs(self.description@),
        }
    }
}

/// Arguments as plain values.
pub open spec fn args_view(v: Seq<ArgumentDef>) -> Seq<ArgumentDefView> {
    v.map_values(|a: ArgumentDef| a@)
}

impl View for MethodDef {
    type V = MethodDefView;

    open spec fn view(&self) -> MethodDefView {
        MethodDefView {
            name: self.name@,
            source_url: opt_chars(self.source_url),
            description: strs(self.description@),
            since: self.since,
            deprecated: self.deprecated,
            inputs: args_view(self.inputs@),
            outputs: args_view(self.outputs@),
        }
    }
}

impl View for PropertyDef {
    type V = PropertyDefView;

    open spec fn view(&self) -> PropertyDefView {
        PropertyDefView {
            name: self.name@,
            source_url: opt_chars(self.source_url),
            description: strs(self.description@),
            since: self.since,
            deprecated: self.deprecated,
            signature: opt_chars(self.signature),
            access: self.access,
        }
    }
}

impl View for SignalDef {
    type V = SignalDefView;

    open spec fn view(&self) -> SignalDefView {
        SignalDefView {
            name: self.name@,
            source_url: opt_chars(self.source_url),
            description: strs(self.description@),
            since: self.since,
            deprecated: self.deprecated,
            args: args_view(self.args@),
        }
    }
}

/// Methods as plain values.
pub open spec fn methods_view(v: Seq<MethodDef>) -> Seq<MethodDefView> {
    v.map_values(|m: MethodDef| m@)
}

/// Properties as plain values.
pub open spec fn properties_view(v: Seq<PropertyDef>) -> Seq<PropertyDefView> {
    v.map_values(|p: PropertyDef| p@)
}

/// Signals as plain values.
pub open spec fn signals_view(v: Seq<SignalDef>) -> Seq<SignalDefView> {
    v.map_values(|s: SignalDef| s@)
}

impl View for InterfaceDef {
    type V = InterfaceDefView;

    open spec fn view(&self) -> InterfaceDefView {
        InterfaceDefView {
            name: self.name@,
            source_url: opt_chars(self.source_url),
            description: strs(self.description@),
            since: self.since,
            deprecated: self.deprecated,
            object_path_family_label: opt_chars(self.object_path_family_label),
            object_path_pattern: opt_chars(self.object_path_pattern),
            methods: methods_view(self.methods@),
            properties: properties_view(self.properties@),
            signals: signals_view(self.signals@),
        }
    }
}

impl Default for InterfaceDef {
    /// An interface with no name, no documentation and no members.
    fn default() -> (r: InterfaceDef)
        ensures
            r@.name == Seq::<char>::empty(),
            r@.source_url is None,
            r@.description == Seq::<Seq<char>>::empty(),
            r@.since is None,
            r@.deprecated is None,
            r@.object_path_family_label is None,
            r@.object_path_pattern is None,
            r@.methods == Seq::<MethodDefView>::empty(),
            r@.properties == Seq::<PropertyDefView>::empty(),
            r@.signals == Seq::<SignalDefView>::empty(),
    {
        let r = InterfaceDef {
            name: String::new(),
            source_url: None,
            description: Vec::new(),
            since: None,
            deprecated: None,
            object_path_family_label: None,
            object_path_pattern: None,
            methods: Vec::new(),
            properties: Vec::new(),
            signals: Vec::new(),
        };
        assert(r@.description =~= Seq::<Seq<char>>::empty());
        assert(r@.methods =~= Seq::<MethodDefView>::empty());
        assert(r@.properties =~= Seq::<PropertyDefView>::empty());
        assert(r@.signals =~= Seq::<SignalDefView>::empty());
        r
    }
}

} // verus!
