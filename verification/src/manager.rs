//! The registry of the vaults that are open, and of the one that is active.

use vstd::prelude::*;

use crate::name_map::NameMap;
use crate::vault::{Vault, VaultView};

verus! {

/// The vaults that are open, by name, and the name of the active one.
pub struct VaultManager {
    active_vault_name: Option<String>,
    vaults: NameMap<Vault>,
}

/// What the registry holds.
pub struct VaultManagerView {
    /// The name that was last activated.
    pub active: Option<Seq<char>>,
    /// The open vaults, by name.
    pub vaults: Map<Seq<char>, VaultView>,
}

impl VaultManagerView {
    /// The vault that entry operations work on: the one under the active
    /// name, if a vault is open under that name.
    pub open spec fn active_vault(self) -> Option<VaultView> {
        match self.active {
            Some(name) => if self.vaults.contains_key(name) {
                Some(self.vaults[name])
            } else {
                None
            },
            None => None,
        }
    }
}

impl View for VaultManager {
    type V = VaultManagerView;

    closed spec fn view(&self) -> VaultManagerView {
        VaultManagerView {
            active: match self.active_vault_name {
                Some(name) => Some(name@),
                None => None,
            },
            vaults: self.vaults@.map_values(|v: Vault| v@),
        }
    }
}

impl VaultManager {
    /// The invariant of the registry: no name occurs twice, and every vault
    /// is well formed.
    pub closed spec fn wf(&self) -> bool {
        &&& self.vaults.wf()
        &&& forall|name: Seq<char>| #[trigger]
            self.vaults@.contains_key(name) ==> self.vaults@[name].wf()
    }

    /// The names of the open vaults, in the order in which they first came.
    pub closed spec fn spec_names(&self) -> Seq<Seq<char>> {
        self.vaults.spec_names()
    }

    /// The names of the open vaults are distinct, and they are the names
    /// under which the registry holds a vault.
    pub proof fn lemma_names(&self)
        requires
            self.wf(),
        ensures
            self.spec_names().no_duplicates(),
            self.spec_names().to_set() == self@.vaults.dom(),
    {
        assert(self.spec_names().to_set() =~= self@.vaults.dom());
    }

    /// A registry without vaults, none active.
    pub fn new() -> (m: VaultManager)
        ensures
            m.wf(),
            m@.active is None,
            m@.vaults == Map::<Seq<char>, VaultView>::empty(),
            m.spec_names() == Seq::<Seq<char>>::empty(),
    {
        let m = VaultManager { active_vault_name: None, vaults: NameMap::new() };
        assert(m@.vaults =~= Map::<Seq<char>, VaultView>::empty());
        m
    }

    /// Puts a vault under a name, in place of the vault that the name had,
    /// and makes the name the active one.
    pub fn add_and_activate_vault(&mut self, vault_name: &str, vault: Vault)
        requires
            old(self).wf(),
            vault.wf(),
        ensures
            final(self).wf(),
            final(self)@.vaults == old(self)@.vaults.insert(vault_name@, vault@),
            final(self)@.active == Some(vault_name@),
            final(self)@.active_vault() == Some(vault@),
    {
        self.add_vault(vault_name.to_string(), vault);
        self.set_active_vault(vault_name.to_string());
    }

    /// Puts a vault under a name, in place of the vault that the name had.
    pub fn add_vault(&mut self, vault_name: String, vault: Vault)
        requires
            old(self).wf(),
            vault.wf(),
        ensures
            final(self).wf(),
            final(self)@.vaults == old(self)@.vaults.insert(vault_name@, vault@),
            final(self)@.active == old(self)@.active,
            final(self).spec_names() == if old(self).spec_names().contains(vault_name@) {
                old(self).spec_names()
            } else {
                old(self).spec_names().push(vault_name@)
            },
    {
        let ghost before = *self;
        self.vaults.insert(vault_name, vault);
        assert(self@.vaults =~= before@.vaults.insert(vault_name@, vault@));
    }

    /// Makes a name the active one, whether or not a vault is open under it.
    pub fn set_active_vault(&mut self, vault_name: String)
        requires
            old(self).wf(),
        ensures
            final(self).wf(),
            final(self)@.vaults == old(self)@.vaults,
            final(self)@.active == Some(vault_name@),
            final(self).spec_names() == old(self).spec_names(),
    {
        self.active_vault_name = Some(vault_name);
    }

    /// The vault that is open under a name.
    pub fn get_vault(&self, name: &str) -> (r: Option<&Vault>)
        requires
            self.wf(),
        ensures
            r is Some <==> self@.vaults.contains_key(name@),
            r matches Some(v) ==> v.wf() && v@ == self@.vaults[name@],
    {
        self.vaults.get(name)
    }

    /// The name that was last activated.
    pub fn get_active_vault_name(&self) -> (r: Option<&str>)
        ensures
            r is Some <==> self@.active is Some,
            r matches Some(name) ==> self@.active == Some(name@),
    {
        match &self.active_vault_name {
            Some(name) => Some(name.as_str()),
            None => None,
        }
    }

    /// The active vault, to be changed in place: the vault under the active
    /// name, if there is one. Once the caller is done with it, the registry
    /// holds the vault as the caller left it, and nothing else has changed.
    pub fn get_active_vault(&mut self) -> (r: Option<&mut Vault>)
        requires
            old(self).wf(),
        ensures
            r is Some <==> old(self)@.active_vault() is Some,
            r matches Some(v) ==> v.wf() && Some(v@) == old(self)@.active_vault(),
            r matches Some(v) ==> final(self)@.active == old(self)@.active,
            r matches Some(v) ==> final(self)@.vaults == old(self)@.vaults.insert(
                old(self)@.active->0,
                final(v)@,
            ),
            r matches Some(v) ==> final(self).spec_names() == old(self).spec_names(),
            r matches Some(v) ==> (final(v).wf() ==> final(self).wf()),
            r is None ==> *final(self) == *old(self),
    {
        let name = match &self.active_vault_name {
            Some(name) => name.as_str(),
            None => return None,
        };
        self.vaults.get_mut(name)
    }

    /// The open vaults, by name.
    pub fn get_vaults(&self) -> (r: &NameMap<Vault>)
        requires
            self.wf(),
        ensures
            r.wf(),
            r.spec_names() == self.spec_names(),
            r@.dom() == self@.vaults.dom(),
            forall|name: Seq<char>| #[trigger]
                r@.contains_key(name) ==> r@[name].wf() && r@[name]@ == self@.vaults[name],
    {
        assert(self.vaults@.dom() =~= self@.vaults.dom());
        &self.vaults
    }
}

/// The registry as the application holds it for its whole run.
pub struct VaultManagerState(pub VaultManager);

impl VaultManagerState {
    /// The state at start: a registry without vaults, none active.
    pub fn new() -> (s: VaultManagerState)
        ensures
            s.0.wf(),
            s.0@.active is None,
            s.0@.vaults == Map::<Seq<char>, VaultView>::empty(),
    {
        VaultManagerState(VaultManager::new())
    }
}

} // verus!
