use vstd::prelude::*;

use crate::dom::opt_chars;
use crate::model::common::Version;
use crate::parse::common::strs;
use crate::text::{chars_of, ends_with, skip_ws_forward, starts_with, trim_start};

verus! {

/// The enumerations page of the reference.
#[derive(Debug, Clone)]
pub struct TypesPage {
    pub description: Vec<String>,
    pub source_url: Option<String>,
    pub enums: Vec<EnumDef>,
}

/// One enumeration and its values.
#[derive(Debug, Clone)]
pub struct EnumDef {
    pub name: String,
    pub description: Vec<String>,
    pub values: Vec<EnumValue>,
    pub source_url: Option<String>,
    pub since: Option<Version>,
    pub deprecated: Option<Version>,
}

/// One value of an enumeration, with its value as written in the page.
#[derive(Debug, Clone)]
pub struct EnumValue {
    pub name: String,
    pub value: String,
    pub description: Vec<String>,
    pub since: Option<Version>,
    pub deprecated: Option<Version>,
}

pub struct EnumValueView {
    pub name: Seq<char>,
    pub value: Seq<char>,
    pub description: Seq<Seq<char>>,
    pub since: Option<Version>,
    pub deprecated: Option<Version>,
}

pub struct EnumDefView {
    pub name: Seq<char>,
    pub description: Seq<Seq<char>>,
    pub values: Seq<EnumValueView>,
    pub source_url: Option<Seq<char>>,
    pub since: Option<Version>,
    pub deprecated: Option<Version>,
}

pub struct TypesPageView {
    pub description: Seq<Seq<char>>,
    pub source_url: Option<Seq<char>>,
    pub enums: Seq<EnumDefView>,
}

impl View for EnumValue {
    type V = EnumValueView;

    open spec fn view(&self) -> EnumValueView {
        EnumValueView {
            name: self.name@,
            value: self.value@,
            description: strs(self.description@),
            since: self.since,
            deprecated: self.deprecated,
        }
    }
}

/// The values of an enumeration as plain values.
pub open spec fn values_view(v: Seq<EnumValue>) -> Seq<EnumValueView> {
    v.map_values(|x: EnumValue| x@)
}

impl View for EnumDef {
    type V = EnumDefView;

    open spec fn view(&self) -> EnumDefView {
        EnumDefView {
            name: self.name@,
            description: strs(self.description@),
            values: values_view(self.values@),
            source_url: opt_chars(self.source_url),
            since: self.since,
            deprecated: self.deprecated,
        }
    }
}

/// The enumerations as plain values.
pub open spec fn enums_view(v: Seq<EnumDef>) -> Seq<EnumDefView> {
    v.map_values(|x: EnumDef| x@)
}

impl View for TypesPage {
    type V = TypesPageView;

    open spec fn view(&self) -> TypesPageView {
        TypesPageView {
            description: strs(self.description@),
            source_url: opt_chars(self.source_url),
            enums: enums_view(self.enums@),
        }
    }
}

impl TypesPage {
    /// A page with nothing on it but where it came from.
    pub fn empty(source_url: Option<String>) -> (r: TypesPage)
        ensures
            r@.description == Seq::<Seq<char>>::empty(),
            r@.source_url == opt_chars(source_url),
            r@.enums == Seq::<EnumDefView>::empty(),
    {
        let r = TypesPage { description: Vec::new(), source_url, enums: Vec::new() };
        assert(r@.description =~= Seq::<Seq<char>>::empty());
        assert(r@.enums =~= Seq::<EnumDefView>::empty());
        r
    }
}

/// The value is written in hexadecimal: after any whitespace it begins with
/// `0x` or `0X`.
pub open spec fn is_hex_value(value: Seq<char>) -> bool {
    starts_with(trim_start(value), "0x"@) || starts_with(trim_start(value), "0X"@)
}

/// The value is negative: after any whitespace it begins with `-`.
pub open spec fn is_negative_value(value: Seq<char>) -> bool {
    starts_with(trim_start(value), "-"@)
}

impl EnumValue {
    /// Whether the value is written in hexadecimal.
    pub fn is_hex(&self) -> (r: bool)
        ensures
            r == is_hex_value(self.value@),
    {
        let v = chars_of(self.value.as_str());
        let i = skip_ws_forward(v.as_slice(), 0, v.len());
        let t = crate::parse::common::copy_range(v.as_slice(), i, v.len());
        assert(v@.subrange(0, v@.len() as int) == v@);
        let lower = chars_of("0x");
        let upper = chars_of("0X");
        crate::text::starts_with_exec(t.as_slice(), lower.as_slice())
            || crate::text::starts_with_exec(t.as_slice(), upper.as_slice())
    }

    /// Whether the value is written with a minus sign.
    pub fn has_negative_sign(&self) -> (r: bool)
        ensures
            r == is_negative_value(self.value@),
    {
        let v = chars_of(self.value.as_str());
        let i = skip_ws_forward(v.as_slice(), 0, v.len());
        let t = crate::parse::common::copy_range(v.as_slice(), i, v.len());
        assert(v@.subrange(0, v@.len() as int) == v@);
        let minus = chars_of("-");
        crate::text::starts_with_exec(t.as_slice(), minus.as_slice())
    }
}

impl EnumDef {
    /// Whether some value is written in hexadecimal, which marks a set of
    /// flags.
    pub fn is_bitflags_by_value(&self) -> (r: bool)
        ensures
            r == exists|i: int|
                0 <= i < self.values@.len() && is_hex_value(#[trigger] self.values@[i].value@),
    {
        let mut k: usize = 0;
        while k < self.values.len()
            invariant
                k <= self.values@.len(),
                forall|m: int| 0 <= m < k ==> !is_hex_value(#[trigger] self.values@[m].value@),
            decreases self.values.len() - k,
        {
            if self.values[k].is_hex() {
                return true;
            }
            k = k + 1;
        }
        false
    }

    /// Whether some value is written with a minus sign.
    pub fn has_negative_value(&self) -> (r: bool)
        ensures
            r == exists|i: int|
                0 <= i < self.values@.len() && is_negative_value(#[trigger] self.values@[i].value@),
    {
        let mut k: usize = 0;
        while k < self.values.len()
            invariant
                k <= self.values@.len(),
                forall|m: int| 0 <= m < k ==> !is_negative_value(#[trigger] self.values@[m].value@),
            decreases self.values.len() - k,
        {
            if self.values[k].has_negative_sign() {
                return true;
            }
            k = k + 1;
        }
        false
    }
}

impl Default for TypesPage {
    /// A page with no description, no source and no enumerations.
    fn default() -> (r: TypesPage)
        ensures
            r@.description == Seq::<Seq<char>>::empty(),
            r@.source_url is None,
            r@.enums == Seq::<EnumDefView>::empty(),
    {
        TypesPage::empty(None)
    }
}

} // verus!
