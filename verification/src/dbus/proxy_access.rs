use vstd::prelude::*;

verus! {

/// `zbus::Proxy`, the handle to a remote D-Bus object; carried through, never
/// looked into.
#[verifier::external_type_specification]
#[verifier::external_body]
pub struct ExProxy<'a>(zbus::Proxy<'a>);

/// Something that can hand out the D-Bus proxy of the object it stands for.
pub trait HasProxy {
    /// The proxy of the object.
    fn proxy(&self) -> &zbus::Proxy<'_>;
}

} // verus!
