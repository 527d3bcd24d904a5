use vstd::prelude::*;

use crate::bangs::Bang;
use crate::machine::Machine;
use crate::machine::StoreOp;
use crate::machine::StoreOpView;
use crate::machine::init_machine;

verus! {

/// The stateless store service: each public operation starts a fresh
/// operation machine over the two fixed sibling paths, and nothing is
/// cached between operations.  The driver that owns the paths performs the
/// machine's filesystem actions.
pub struct Storage {
    filepath: String,
    backup_filepath: String,
}

impl View for Storage {
    type V = (Seq<char>, Seq<char>);

    closed spec fn view(&self) -> (Seq<char>, Seq<char>) {
        (self.filepath@, self.backup_filepath@)
    }
}

impl Storage {
    pub fn new() -> (r: Self)
        ensures
            r@.0 == "storage.json"@,
            r@.1 == "backup_storage.json"@,
    {
        Storage {
            filepath: "storage.json".to_owned(),
            backup_filepath: "backup_storage.json".to_owned(),
        }
    }

    /// The path of the live store file.
    pub fn filepath(&self) -> (r: &String)
        ensures
            r@ == self@.0,
    {
        &self.filepath
    }

    /// The path the pre-mutation copy is kept under.
    pub fn backup_filepath(&self) -> (r: &String)
        ensures
            r@ == self@.1,
    {
        &self.backup_filepath
    }

    /// Every record of the document, in storage order.  Never fails on
    /// content; only an I/O failure of the driver fails it.
    pub fn find_all(&self) -> (m: Machine)
        ensures
            m@ == init_machine(StoreOpView::List),
    {
        Machine::start(StoreOp::List)
    }

    /// The first record whose alias matches exactly, or the not-found
    /// error carrying the alias.
    pub fn find_bang(&self, alias: &String) -> (m: Machine)
        ensures
            m@ == init_machine(StoreOpView::Find(alias@)),
    {
        Machine::start(StoreOp::Find(alias.clone()))
    }

    /// Appends the record to the end of the document and persists it.
    /// Duplicate aliases are deliberately permitted to accumulate.
    pub fn save_bang(&self, bang: &Bang) -> (m: Machine)
        ensures
            m@ == init_machine(StoreOpView::Add(bang@)),
    {
        Machine::start(StoreOp::Add(bang.clone()))
    }

    /// Confirms a record of the alias exists (failing as lookup would),
    /// then drops every record of that alias and persists the rest.
    pub fn remove_bang(&self, alias: &String) -> (m: Machine)
        ensures
            m@ == init_machine(StoreOpView::Remove(alias@)),
    {
        Machine::start(StoreOp::Remove(alias.clone()))
    }
}

} // verus!
