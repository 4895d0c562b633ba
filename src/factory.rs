use vstd::prelude::*;
use vstd::string::StringExecFns;

use crate::resource::ResourceInitParams;

verus! {

/// A character that may stand in a NEAR account id.
pub open spec fn is_account_char(c: char) -> bool {
    ('a' <= c && c <= 'z') || ('0' <= c && c <= '9') || is_separator(c)
}

/// The characters that separate the parts of a NEAR account id.
pub open spec fn is_separator(c: char) -> bool {
    c == '-' || c == '_' || c == '.'
}

/// A well-formed NEAR account id: 2 to 64 characters out of `a-z`, `0-9`,
/// `-`, `_`, `.`, where a separator neither begins nor ends the id nor follows
/// another separator.
pub open spec fn valid_account_id(s: Seq<char>) -> bool {
    &&& 2 <= s.len() <= 64
    &&& forall|i: int| 0 <= i < s.len() ==> is_account_char(#[trigger] s[i])
    &&& !is_separator(s[0])
    &&& !is_separator(s[s.len() - 1])
    &&& forall|i: int| 0 <= i < s.len() - 1 ==> !(is_separator(#[trigger] s[i]) && is_separator(s[i + 1]))
}

/// Relies on near_sdk::AccountId::validate (near-account-id): it accepts a
/// string exactly when it is a well-formed account id.
#[verifier::external_body]
fn account_id_is_valid(account_id: &str) -> (r: bool)
    ensures
        r == valid_account_id(account_id@),
{
    near_sdk::AccountId::validate(account_id).is_ok()
}

/// The account id of the sub-account `name` of `parent`.
pub open spec fn sub_account_of(name: Seq<char>, parent: Seq<char>) -> Seq<char> {
    name + seq!['.'] + parent
}

/// Why the factory refused a request.
#[derive(Debug, Clone, Copy, PartialEq, Eq, Structural)]
pub enum FactoryError {
    /// A resource of that name has already been provisioned.
    NameTaken,
    /// `name.<factory account>` is not a valid account id.
    InvalidAccountId,
    /// The caller is not the owner, or attached no deposit.
    Unauthorized,
    /// The new owner is the caller itself.
    SameOwner,
}

/// The external sequence to issue for a new resource: create the account
/// `resource_account_id`, move `deposit` to it, install the resource and call
/// its initializer with `owner` and `init_params`.
#[derive(Debug, Clone)]
pub struct ProvisioningRequest {
    pub name: String,
    pub resource_account_id: String,
    pub owner: String,
    pub deposit: u128,
    pub init_params: ResourceInitParams,
}

/// The record of a confirmed provisioning, as published to indexers.
#[derive(Debug, Clone)]
pub struct ResourceCreation {
    pub name: String,
    pub owner: String,
    pub init_params: ResourceInitParams,
}

/// How a provisioning attempt resolved.
#[derive(Debug, Clone)]
pub enum ProvisioningOutcome {
    /// The name is now registered; the record is to be published.
    Confirmed(ResourceCreation),
    /// The sequence failed: `refund` goes back to `refund_to` and a failure is
    /// to be published. The name stays free.
    Failed { name: String, refund_to: String, refund: u128 },
    /// A confirmation for a name that is already registered: nothing to do.
    Ignored,
}

/// Provisions resources as sub-accounts and keeps the names of those whose
/// provisioning was confirmed.
pub struct ChershareResourceFactory {
    resources: Vec<String>,
    test_msg: String,
    owner_id: String,
}

impl Default for ChershareResourceFactory {
    fn default() -> (r: ChershareResourceFactory)
        ensures
            r.names() == Set::<Seq<char>>::empty(),
            r.test_msg_spec()@ == "hi!"@,
            r.owner_spec()@ == Seq::<char>::empty(),
    {
        ChershareResourceFactory::new(String::new())
    }
}

impl ChershareResourceFactory {
    /// The names of the resources whose provisioning was confirmed.
    pub closed spec fn names(&self) -> Set<Seq<char>> {
        Set::new(
            |n: Seq<char>|
                exists|j: int| 0 <= j < self.resources@.len() && (#[trigger] self.resources@[j])@ == n,
        )
    }

    pub closed spec fn test_msg_spec(&self) -> String {
        self.test_msg
    }

    pub closed spec fn owner_spec(&self) -> String {
        self.owner_id
    }

    /// A factory owned by `owner_id` that has provisioned nothing yet.
    pub fn new(owner_id: String) -> (r: Self)
        ensures
            r.names() == Set::<Seq<char>>::empty(),
            r.test_msg_spec()@ == "hi!"@,
            r.owner_spec() == owner_id,
    {
        let r = ChershareResourceFactory {
            resources: Vec::new(),
            test_msg: String::from_str("hi!"),
            owner_id,
        };
        assert(r.names() =~= Set::<Seq<char>>::empty());
        r
    }

    /// A factory owned by `owner_id` whose registered names are `names`, as
    /// kept in storage between calls.
    pub fn with_names(owner_id: String, names: Vec<String>) -> (r: Self)
        ensures
            forall|n: Seq<char>|
                r.names().contains(n) <==> exists|j: int|
                    0 <= j < names@.len() && (#[trigger] names@[j])@ == n,
            r.test_msg_spec()@ == "hi!"@,
            r.owner_spec() == owner_id,
    {
        ChershareResourceFactory { resources: names, test_msg: String::from_str("hi!"), owner_id }
    }

    /// Whether `resource_id` has been provisioned.
    pub fn check_resource_contained(&self, resource_id: &String) -> (r: bool)
        ensures
            r == self.names().contains(resource_id@),
    {
        let mut i: usize = 0;
        while i < self.resources.len()
            invariant
                i <= self.resources@.len(),
                forall|j: int| 0 <= j < i ==> (#[trigger] self.resources@[j])@ != resource_id@,
            decreases self.resources@.len() - i,
        {
            if self.resources[i].eq(resource_id) {
                assert(self.resources@[i as int]@ == resource_id@);
                return true;
            }
            i = i + 1;
        }
        false
    }

    /// `NameTaken` exactly when `resource_id` has been provisioned.
    pub fn assert_name_available(&self, resource_id: &String) -> (r: Result<(), FactoryError>)
        ensures
            r is Ok <==> !self.names().contains(resource_id@),
            r is Err ==> r == Err::<(), FactoryError>(FactoryError::NameTaken),
    {
        if self.check_resource_contained(resource_id) {
            Err(FactoryError::NameTaken)
        } else {
            Ok(())
        }
    }

    /// The factory's greeting.
    pub fn get_test(&self) -> (r: String)
        ensures
            r == self.test_msg_spec(),
    {
        self.test_msg.clone()
    }

    /// Whether `name` has been provisioned.
    pub fn name_exists(&self, name: String) -> (r: bool)
        ensures
            r == self.names().contains(name@),
    {
        self.check_resource_contained(&name)
    }

    /// Starts provisioning `name` for `signer_account_id`, who attached
    /// `attached_deposit`, under the factory account `current_account_id`.
    /// Fails with `NameTaken` when the name is registered (and then nothing
    /// is issued), else with `InvalidAccountId` when `name.<factory>` is not
    /// an account id; otherwise returns the sequence to issue. Nothing is
    /// registered here: that waits for the confirmation.
    pub fn create_resource(
        &self,
        name: String,
        resource_init_params: ResourceInitParams,
        signer_account_id: String,
        current_account_id: String,
        attached_deposit: u128,
    ) -> (r: Result<ProvisioningRequest, FactoryError>)
        ensures
            self.names().contains(name@) ==> r == Err::<ProvisioningRequest, FactoryError>(
                FactoryError::NameTaken,
            ),
            !self.names().contains(name@) && !valid_account_id(
                sub_account_of(name@, current_account_id@),
            ) ==> r == Err::<ProvisioningRequest, FactoryError>(FactoryError::InvalidAccountId),
            r matches Ok(req) ==> {
                &&& !self.names().contains(name@)
                &&& valid_account_id(sub_account_of(name@, current_account_id@))
                &&& req.name == name
                &&& req.resource_account_id@ == sub_account_of(name@, current_account_id@)
                &&& req.owner == signer_account_id
                &&& req.deposit == attached_deposit
                &&& req.init_params == resource_init_params
            },
            !self.names().contains(name@) && valid_account_id(
                sub_account_of(name@, current_account_id@),
            ) ==> r is Ok,
    {
        if let Err(e) = self.assert_name_available(&name) {
            return Err(e);
        }
        let resource_account_id = name.clone().concat(".").concat(current_account_id.as_str());
        proof {
            reveal_strlit(".");
        }
        assert(resource_account_id@ == sub_account_of(name@, current_account_id@));
        if !account_id_is_valid(resource_account_id.as_str()) {
            return Err(FactoryError::InvalidAccountId);
        }
        Ok(
            ProvisioningRequest {
                name,
                resource_account_id,
                owner: signer_account_id,
                deposit: attached_deposit,
                init_params: resource_init_params,
            },
        )
    }

    /// Resolves a provisioning attempt once the external sequence has run.
    /// Only a reported success registers the name (once: a second
    /// confirmation of a registered name is ignored); anything else refunds
    /// the whole deposit to the owner who paid it and leaves the name free.
    pub fn create_resource_callback(
        &mut self,
        name: String,
        owner: String,
        init_params: ResourceInitParams,
        attached_deposit: u128,
        call_succeeded: bool,
    ) -> (r: ProvisioningOutcome)
        ensures
            final(self).test_msg_spec() == old(self).test_msg_spec(),
            final(self).owner_spec() == old(self).owner_spec(),
            call_succeeded && !old(self).names().contains(name@) ==> {
                &&& final(self).names() == old(self).names().insert(name@)
                &&& r == ProvisioningOutcome::Confirmed(
                    ResourceCreation { name, owner, init_params },
                )
            },
            call_succeeded && old(self).names().contains(name@) ==> {
                &&& final(self).names() == old(self).names()
                &&& r == ProvisioningOutcome::Ignored
            },
            !call_succeeded ==> {
                &&& final(self).names() == old(self).names()
                &&& r == (ProvisioningOutcome::Failed {
                    name,
                    refund_to: owner,
                    refund: attached_deposit,
                })
            },
    {
        if !call_succeeded {
            return ProvisioningOutcome::Failed { name, refund_to: owner, refund: attached_deposit };
        }
        if self.check_resource_contained(&name) {
            return ProvisioningOutcome::Ignored;
        }
        let ghost old_names = self.names();
        self.resources.push(name.clone());
        assert(self.names() =~= old_names.insert(name@)) by {
            assert(self.resources@[self.resources@.len() - 1]@ == name@);
            assert forall|n: Seq<char>| old_names.contains(n) implies self.names().contains(n) by {
                let j = choose|j: int|
                    0 <= j < old(self).resources@.len() && (#[trigger] old(self).resources@[j])@
                        == n;
                assert(self.resources@[j] == old(self).resources@[j]);
            }
            assert forall|n: Seq<char>| self.names().contains(n) implies old_names.insert(
                name@,
            ).contains(n) by {
                let j = choose|j: int|
                    0 <= j < self.resources@.len() && (#[trigger] self.resources@[j])@ == n;
                if j < old(self).resources@.len() {
                    assert(old(self).resources@[j] == self.resources@[j]);
                }
            }
        }
        ProvisioningOutcome::Confirmed(ResourceCreation { name, owner, init_params })
    }

    /// Hands the factory to `new_owner`. Only the owner may do so, with a
    /// non-zero deposit attached, and not to itself.
    pub fn set_owner(&mut self, caller: String, attached_deposit: u128, new_owner: String) -> (r:
        Result<(), FactoryError>)
        ensures
            caller@ != old(self).owner_spec()@ || attached_deposit == 0 ==> r == Err::<
                (),
                FactoryError,
            >(FactoryError::Unauthorized),
            caller@ == old(self).owner_spec()@ && attached_deposit > 0 && new_owner@ == caller@
                ==> r == Err::<(), FactoryError>(FactoryError::SameOwner),
            r is Err ==> *final(self) == *old(self),
            r is Ok ==> {
                &&& caller@ == old(self).owner_spec()@
                &&& attached_deposit > 0
                &&& new_owner@ != caller@
                &&& final(self).owner_spec() == new_owner
                &&& final(self).names() == old(self).names()
                &&& final(self).test_msg_spec() == old(self).test_msg_spec()
            },
            caller@ == old(self).owner_spec()@ && attached_deposit > 0 && new_owner@ != caller@
                ==> r is Ok,
    {
        if !caller.eq(&self.owner_id) || attached_deposit == 0 {
            return Err(FactoryError::Unauthorized);
        }
        if new_owner.eq(&caller) {
            return Err(FactoryError::SameOwner);
        }
        self.owner_id = new_owner;
        Ok(())
    }
}

} // verus!
