use vstd::prelude::*;

use crate::document_storage::DocumentStorage;
use crate::message::{ObjectId, RollbackReason, Transaction};
use crate::model::{apply_items, DocModel};
use crate::transactional_document::TransactionalDocument;

verus! {

/// The authoritative document: every transaction it receives is committed at once.
#[derive(Debug)]
pub struct ServerLeaderDocument {
    document: TransactionalDocument,
}

impl ServerLeaderDocument {
    /// Nothing stays pending between calls.
    pub closed spec fn wf(&self) -> bool {
        self.document.wf() && self.document.pending().len() == 0
    }

    /// The committed state.
    pub closed spec fn model(&self) -> DocModel {
        self.document.base()
    }

    pub closed spec fn doc_id(&self) -> ObjectId {
        self.document.spec_document_id()
    }

    pub fn new(storage: DocumentStorage) -> (r: ServerLeaderDocument)
        requires
            storage.wf(),
        ensures
            r.wf(),
            r.model() == storage@,
            r.doc_id() == storage.spec_document_id(),
    {
        ServerLeaderDocument { document: TransactionalDocument::from_storage(storage) }
    }

    /// The reader over the committed state.
    pub fn document(&self) -> (r: &TransactionalDocument)
        ensures
            self.wf() ==> r.wf() && r.model() == self.model() && r.base() == self.model(),
            r.spec_document_id() == self.doc_id(),
    {
        &self.document
    }

    /// The committed store.
    pub fn storage(&self) -> (r: &DocumentStorage)
        ensures
            r@ == self.model(),
            self.wf() ==> r.wf(),
            r.spec_document_id() == self.doc_id(),
    {
        self.document.storage()
    }

    /// Begins the transaction, validates it (nothing is refused today) and commits it;
    /// returns the transaction as committed.
    pub fn process_transaction(&mut self, tx: Transaction) -> (r: Result<Transaction, RollbackReason>)
        requires
            old(self).wf(),
        ensures
            final(self).wf(),
            final(self).doc_id() == old(self).doc_id(),
            final(self).model() == apply_items(old(self).model(), tx.items@),
            r matches Ok(t) && t.id == tx.id && t.items@ == tx.items@,
    {
        let tx_id = tx.id;
        self.document.begin(tx);
        assert(self.document.pending()[0].id == tx_id);
        match self.document.finish(tx_id, true) {
            Ok(t) => {
                assert(self.document.pending() =~= Seq::<Transaction>::empty());
                Ok(t)
            },
            Err(_) => {
                assert(false);
                Err(RollbackReason::Something)
            },
        }
    }
}

} // verus!
