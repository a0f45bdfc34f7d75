//! What a discovery reply tells a client.

use vstd::prelude::*;

use crate::outside;
use crate::text;

verus! {

/// The facts of a server that a discovery reply carries.
#[derive(Debug, Clone, PartialEq, Eq, Default)]
pub struct ServerDiscoveryInfo {
    /// Where the server is reached.
    pub address: String,
    /// The identifier of the server.
    pub id: String,
    /// The name of the server.
    pub name: String,
    /// The address of the endpoint; null in a discovery reply.
    pub endpoint_address: Option<String>,
}

/// The members of an object: keys, and texts or null.
pub open spec fn member_views(members: Seq<(String, Option<String>)>) -> Seq<
    (Seq<char>, Option<Seq<char>>),
> {
    members.map_values(
        |member: (String, Option<String>)|
            (
                member.0@,
                match member.1 {
                    Some(text) => Some(text@),
                    None => None,
                },
            ),
    )
}

impl ServerDiscoveryInfo {
    /// The members of the object that stands for the facts: all four, the
    /// endpoint as null where there is none.
    pub open spec fn spec_members(self) -> Seq<(Seq<char>, Option<Seq<char>>)> {
        seq![
            ("Address"@, Some(self.address@)),
            ("Id"@, Some(self.id@)),
            ("Name"@, Some(self.name@)),
            (
                "EndpointAddress"@,
                match self.endpoint_address {
                    Some(text) => Some(text@),
                    None => None,
                },
            ),
        ]
    }

    /// Executable [`ServerDiscoveryInfo::spec_members`].
    pub fn members(&self) -> (members: Vec<(String, Option<String>)>)
        ensures
            member_views(members@) == self.spec_members(),
    {
        let mut members: Vec<(String, Option<String>)> = Vec::new();
        members.push(("Address".to_owned(), Some(self.address.clone())));
        members.push(("Id".to_owned(), Some(self.id.clone())));
        members.push(("Name".to_owned(), Some(self.name.clone())));
        members.push(
            ("EndpointAddress".to_owned(), text::copy_optional(&self.endpoint_address)),
        );
        assert(member_views(members@) =~= self.spec_members());
        members
    }

    /// The facts as a JSON object.
    pub fn to_json(&self) -> (json: Option<Vec<u8>>)
        ensures
            match json {
                Some(bytes) => outside::json_object(self.spec_members()) == Some(bytes@),
                None => outside::json_object(self.spec_members()) is None,
            },
    {
        outside::write_json_object(&self.members())
    }
}

/// The value of the first member with the key.
pub open spec fn member_value(
    members: Seq<(Seq<char>, Option<Seq<char>>)>,
    key: Seq<char>,
) -> Option<Option<Seq<char>>>
    decreases members.len(),
{
    if members.len() == 0 {
        None
    } else if members[0].0 == key {
        Some(members[0].1)
    } else {
        member_value(members.skip(1), key)
    }
}

/// Each fact is found under its own key, and there are no other members: the
/// endpoint is there too where there is none, as null.
pub proof fn law_every_fact_has_its_key(info: ServerDiscoveryInfo)
    ensures
        info.spec_members().len() == 4,
        member_value(info.spec_members(), "Address"@) == Some(Some(info.address@)),
        member_value(info.spec_members(), "Id"@) == Some(Some(info.id@)),
        member_value(info.spec_members(), "Name"@) == Some(Some(info.name@)),
        member_value(info.spec_members(), "EndpointAddress"@) == Some(
            match info.endpoint_address {
                Some(text) => Some(text@),
                None => None,
            },
        ),
{
    reveal_strlit("Address");
    reveal_strlit("Id");
    reveal_strlit("Name");
    reveal_strlit("EndpointAddress");
    assert("Address"@.len() == 7 && "Id"@.len() == 2 && "Name"@.len() == 4
        && "EndpointAddress"@.len() == 15);
    reveal_with_fuel(member_value, 5);
}

} // verus!
