//! The names that the messages of the bus daemon carry in their bodies,
//! read from the bytes by `zvariant`.
//!
//! Verus does not see how `zvariant` reads a body. Each reading is a
//! function of the bytes, the signature and the byte order alone, and is
//! spoken of here by a name of its own.

use crate::bus_name::BusName;
use crate::message::{name_view, text_view};
use vstd::prelude::*;
use zbus::message::EndianSig;
use zbus::names;
use zbus::names::UniqueName;
use zbus::zvariant::serialized::{Context, Data};
use zbus::zvariant::{Endian, Optional};

verus! {

/// The arguments of a `NameOwnerChanged` signal.
#[derive(Debug, PartialEq, Eq)]
pub struct NameOwnerChanged {
    pub name: BusName,
    /// The unique name of the connection that held the name, if one did.
    pub old_owner: Option<String>,
    /// The unique name of the connection that holds the name now, if one
    /// does.
    pub new_owner: Option<String>,
}

/// What a [`NameOwnerChanged`] stands for.
pub struct NameOwnerChangedView {
    pub name: (bool, Seq<char>),
    pub old_owner: Option<Seq<char>>,
    pub new_owner: Option<Seq<char>>,
}

impl View for NameOwnerChanged {
    type V = NameOwnerChangedView;

    open spec fn view(&self) -> NameOwnerChangedView {
        NameOwnerChangedView {
            name: self.name@,
            old_owner: text_view(self.old_owner),
            new_owner: text_view(self.new_owner),
        }
    }
}

/// What optional arguments of a `NameOwnerChanged` signal stand for.
pub open spec fn owner_change_view(change: Option<NameOwnerChanged>) -> Option<
    NameOwnerChangedView,
> {
    match change {
        Some(change) => Some(change@),
        None => None,
    }
}

/// What `zvariant` reads from a body as one bus name: the name, or `None`
/// where the body does not hold exactly that.
pub uninterp spec fn decoded_bus_name(body: Seq<u8>, signature: Seq<char>, endian_sig: u8) -> Option<
    (bool, Seq<char>),
>;

/// What `zvariant` reads from a body as one unique name.
pub uninterp spec fn decoded_unique_name(
    body: Seq<u8>,
    signature: Seq<char>,
    endian_sig: u8,
) -> Option<Seq<char>>;

/// What `zvariant` reads from a body as a bus name and two unique names
/// that may each be absent.
pub uninterp spec fn decoded_owner_change(
    body: Seq<u8>,
    signature: Seq<char>,
    endian_sig: u8,
) -> Option<NameOwnerChangedView>;

/// `zvariant::serialized::Data::deserialize_for_dynamic_signature` for one
/// `zbus::names::BusName`, on a body in the D-Bus format with the byte order
/// that `zbus::message::EndianSig` reads from `endian_sig`. The result is
/// the named reading of these arguments.
#[verifier::external_body]
pub(crate) fn decode_bus_name(body: &[u8], signature: &str, endian_sig: u8) -> (name: Option<BusName>)
    ensures
        name_view(name) == decoded_bus_name(body@, signature@, endian_sig),
{
    let endian = Endian::from(EndianSig::try_from(endian_sig).ok()?);
    let data = Data::new(body, Context::new_dbus(endian, 0));
    match data.deserialize_for_dynamic_signature::<_, (names::BusName,)>(signature).ok()?.0 {
        (names::BusName::Unique(name),) => Some(BusName::Unique(name.to_string())),
        (names::BusName::WellKnown(name),) => Some(BusName::WellKnown(name.to_string())),
    }
}

/// The same call for one `zbus::names::UniqueName`.
#[verifier::external_body]
pub(crate) fn decode_unique_name(body: &[u8], signature: &str, endian_sig: u8) -> (name: Option<
    String,
>)
    ensures
        text_view(name) == decoded_unique_name(body@, signature@, endian_sig),
{
    let endian = Endian::from(EndianSig::try_from(endian_sig).ok()?);
    let data = Data::new(body, Context::new_dbus(endian, 0));
    let ((name,), _) = data.deserialize_for_dynamic_signature::<_, (UniqueName,)>(signature).ok()?;
    Some(name.to_string())
}

/// The same call for a `zbus::names::BusName` and two
/// `zvariant::Optional<zbus::names::UniqueName>`, where an empty string
/// stands for an absent name.
#[verifier::external_body]
pub(crate) fn decode_owner_change(body: &[u8], signature: &str, endian_sig: u8) -> (change: Option<
    NameOwnerChanged,
>)
    ensures
        owner_change_view(change) == decoded_owner_change(body@, signature@, endian_sig),
{
    let endian = Endian::from(EndianSig::try_from(endian_sig).ok()?);
    let data = Data::new(body, Context::new_dbus(endian, 0));
    let (args, _) = data.deserialize_for_dynamic_signature::<
        _,
        (names::BusName, Optional<UniqueName>, Optional<UniqueName>),
    >(signature).ok()?;
    let name = match args.0 {
        names::BusName::Unique(name) => BusName::Unique(name.to_string()),
        names::BusName::WellKnown(name) => BusName::WellKnown(name.to_string()),
    };
    let old_owner = args.1.as_ref().map(ToString::to_string);
    let new_owner = args.2.as_ref().map(ToString::to_string);
    Some(NameOwnerChanged { name, old_owner, new_owner })
}

} // verus!
