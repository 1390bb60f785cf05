//! The store of the invoices seen so far.

use std::sync::mpsc;
use vstd::prelude::*;
use crate::invoice::invoice_qr::{invoice_of, InvoiceParsingError, InvoiceQR};
use crate::invoice::subset_problem::greedy_search::{greedy_subset, GreedySearchSolver};
use crate::invoice::subset_problem::{answering, values_of, SubsetSolver};
use crate::invoice::{Invoice, InvoiceData, InvoiceMappingTable};
use crate::qr_code::QRCode;

verus! {

/// The receiving end of a channel of the standard library. What arrives on
/// it is up to the thread that sends.
#[verifier::external_type_specification]
#[verifier::external_body]
#[verifier::reject_recursive_types(T)]
pub struct ExReceiver<T>(mpsc::Receiver<T>);

/// Takes the next record off the channel with `Receiver::try_recv`, without
/// waiting: `None` where nothing is queued or the sender is gone.
#[verifier::external_body]
fn try_receive(channel: &mpsc::Receiver<Box<QRCode>>) -> (record: Option<Box<QRCode>>) {
    channel.try_recv().ok()
}

/// The position of the first invoice of `store` with the number `id`, or
/// the length of `store` where it holds none.
pub open spec fn position_of(store: Seq<InvoiceData>, id: Seq<char>) -> nat
    decreases store.len(),
{
    if store.len() == 0 || store[0].id == id {
        0
    } else {
        1 + position_of(store.drop_first(), id)
    }
}

/// Whether no two invoices of `store` have the same number.
pub open spec fn distinct_ids(store: Seq<InvoiceData>) -> bool {
    forall|i: int, j: int| 0 <= i < j < store.len() ==> store[i].id != store[j].id
}

/// The store after `invoice` was handed to it, and the record it answers
/// with: the first seen of a number stays, and a later one of the same
/// number changes nothing.
pub open spec fn inserted(store: Seq<InvoiceData>, invoice: InvoiceData) -> (
    Seq<InvoiceData>,
    InvoiceData,
) {
    let at = position_of(store, invoice.id) as int;
    if at < store.len() {
        (store, store[at])
    } else {
        (store.push(invoice), invoice)
    }
}

/// The totals of the invoices of `store`, in its order.
pub open spec fn prices_of(store: Seq<InvoiceData>) -> Seq<i64> {
    store.map_values(|invoice: InvoiceData| invoice.price as i64)
}

/// The invoices of `store` whose totals best approximate `target`: those
/// that answer for the subset that the sweep picks among the totals.
pub open spec fn best_match(store: Seq<InvoiceData>, target: int) -> Seq<InvoiceData> {
    answering(store, prices_of(store), greedy_subset(prices_of(store), target))
}

/// What `records` hold as invoices.
pub open spec fn invoices_view(records: Seq<InvoiceQR>) -> Seq<InvoiceData> {
    records.map_values(|invoice: InvoiceQR| invoice@)
}

/// What `records` refer to as invoices.
pub open spec fn references_view(records: Seq<&InvoiceQR>) -> Seq<InvoiceData> {
    records.map_values(|invoice: &InvoiceQR| invoice@)
}

/// A position before which no invoice has the number, and which has it
/// unless it is the end, is the position of the number.
pub proof fn lemma_position_is(store: Seq<InvoiceData>, id: Seq<char>, at: int)
    requires
        0 <= at <= store.len(),
        forall|k: int| 0 <= k < at ==> store[k].id != id,
        at < store.len() ==> store[at].id == id,
    ensures
        position_of(store, id) == at,
    decreases store.len(),
{
    if at > 0 {
        lemma_position_is(store.drop_first(), id, at - 1);
    }
}

/// The position of a number lies within the store or at its end; no
/// invoice before it has the number, and the one at it has.
pub proof fn lemma_position(store: Seq<InvoiceData>, id: Seq<char>)
    ensures
        position_of(store, id) <= store.len(),
        forall|k: int| 0 <= k < position_of(store, id) ==> store[k].id != id,
        position_of(store, id) < store.len() ==> store[position_of(store, id) as int].id == id,
    decreases store.len(),
{
    if store.len() > 0 && store[0].id != id {
        let rest = store.drop_first();
        lemma_position(rest, id);
        assert forall|k: int| 0 <= k < position_of(store, id) implies store[k].id != id by {
            if k > 0 {
                assert(store[k] == rest[k - 1]);
            }
        }
    }
}

/// The invoices seen so far, each number once, and what is asked of them.
pub struct InvoiceManager {
    invoices: Vec<InvoiceQR>,
    name_mapping_table: InvoiceMappingTable,
    invoice_recv: mpsc::Receiver<Box<QRCode>>,
    subset_solver: GreedySearchSolver,
}

impl View for InvoiceManager {
    type V = Seq<InvoiceData>;

    /// The invoices of the store, in the order in which they came.
    closed spec fn view(&self) -> Seq<InvoiceData> {
        invoices_view(self.invoices@)
    }
}

impl InvoiceManager {
    #[verifier::type_invariant]
    spec fn each_number_once(&self) -> bool {
        distinct_ids(invoices_view(self.invoices@))
    }

    /// The display names that the store was made with.
    pub closed spec fn names(&self) -> InvoiceMappingTable {
        self.name_mapping_table
    }

    /// An empty store that takes its records from `invoice_recv` and shows
    /// invoices under the names of `name_mapping_table`.
    pub fn new(
        invoice_recv: mpsc::Receiver<Box<QRCode>>,
        name_mapping_table: InvoiceMappingTable,
    ) -> (manager: InvoiceManager)
        ensures
            manager@ == Seq::<InvoiceData>::empty(),
            manager.names() == name_mapping_table,
    {
        let manager = InvoiceManager {
            invoices: Vec::new(),
            name_mapping_table,
            invoice_recv,
            subset_solver: GreedySearchSolver {  },
        };
        assert(manager@ =~= Seq::<InvoiceData>::empty());
        manager
    }

    /// No two invoices of the store have the same number.
    pub fn check_distinct(&self)
        ensures
            distinct_ids(self@),
    {
        proof {
            use_type_invariant(self);
        }
    }

    /// Finds where the invoice with the number `id` stands, or the number
    /// of invoices where there is none.
    fn find(&self, id: &str) -> (at: usize)
        ensures
            at == position_of(self@, id@),
            at <= self.invoices@.len(),
    {
        let wanted: String = id.to_owned();
        let mut at: usize = 0;
        while at < self.invoices.len()
            invariant
                at <= self.invoices@.len(),
                wanted@ == id@,
                forall|k: int| 0 <= k < at ==> self@[k].id != id@,
            decreases self.invoices@.len() - at,
        {
            let number: String = self.invoices[at].get_id().to_owned();
            if number == wanted {
                proof {
                    lemma_position_is(self@, id@, at as int);
                }
                return at;
            }
            at = at + 1;
        }
        proof {
            lemma_position_is(self@, id@, at as int);
        }
        at
    }

    /// Stores `invoice` unless one of its number is stored already, and
    /// answers with the record that the store holds under that number.
    pub fn insert_if_absent(&mut self, invoice: InvoiceQR) -> (stored: InvoiceQR)
        ensures
            (final(self)@, stored@) == inserted(old(self)@, invoice@),
            distinct_ids(final(self)@),
            final(self).names() == old(self).names(),
    {
        proof {
            use_type_invariant(&*self);
        }
        let at: usize = self.find(invoice.get_id());
        if at < self.invoices.len() {
            return self.invoices[at].clone();
        }
        let stored: InvoiceQR = invoice.clone();
        let ghost before = self.invoices@;
        let mut invoices: Vec<InvoiceQR> = Vec::new();
        std::mem::swap(&mut self.invoices, &mut invoices);
        invoices.push(invoice);
        proof {
            lemma_position(invoices_view(before), invoice@.id);
            assert(invoices_view(invoices@) =~= invoices_view(before).push(invoice@));
        }
        self.invoices = invoices;
        stored
    }

    /// The invoice with the number `invoice_id`, if the store holds one.
    pub fn get_invoice(&self, invoice_id: &str) -> (invoice: Option<&InvoiceQR>)
        ensures
            match invoice {
                Some(found) => position_of(self@, invoice_id@) < self@.len() && found@
                    == self@[position_of(self@, invoice_id@) as int],
                None => position_of(self@, invoice_id@) >= self@.len(),
            },
    {
        let at: usize = self.find(invoice_id);
        if at < self.invoices.len() {
            Some(&self.invoices[at])
        } else {
            None
        }
    }

    /// All the invoices of the store, in the order in which they came.
    pub fn get_invoices(&self) -> (invoices: &Vec<InvoiceQR>)
        ensures
            invoices_view(invoices@) == self@,
    {
        &self.invoices
    }

    /// The display names that the store was made with.
    pub fn name_mapping_table(&self) -> (table: &InvoiceMappingTable)
        ensures
            *table == self.names(),
    {
        &self.name_mapping_table
    }

    /// Takes in what a look at the channel gave: nothing, or one record,
    /// which is read as an invoice and stored unless its number is stored
    /// already. A record that carries no invoice leaves the store as it
    /// was.
    pub fn intake(&mut self, record: Option<Box<QRCode>>) -> (outcome: Result<
        Option<InvoiceQR>,
        InvoiceParsingError,
    >)
        ensures
            distinct_ids(final(self)@),
            final(self).names() == old(self).names(),
            match record {
                None => outcome is Ok && outcome->Ok_0 is None && final(self)@ == old(self)@,
                Some(code) => match invoice_of(code@.data) {
                    Err(fault) => outcome is Err && outcome->Err_0@ == fault && final(self)@ == old(
                        self,
                    )@,
                    Ok(invoice) => outcome is Ok && outcome->Ok_0 is Some && (
                        final(self)@,
                        outcome->Ok_0->0@,
                    ) == inserted(old(self)@, invoice),
                },
            },
    {
        proof {
            use_type_invariant(&*self);
        }
        match record {
            None => Ok(None),
            Some(code) => match InvoiceQR::new(code) {
                Err(error) => Err(error),
                Ok(invoice) => Ok(Some(self.insert_if_absent(invoice))),
            },
        }
    }

    /// Looks at the channel once and takes in what it gave. At most one
    /// record is taken per look: what else is queued waits for the next.
    pub fn check_qr_channel(&mut self) -> (outcome: Result<Option<InvoiceQR>, InvoiceParsingError>)
        ensures
            distinct_ids(final(self)@),
            final(self).names() == old(self).names(),
            match outcome {
                Ok(None) => final(self)@ == old(self)@,
                Ok(Some(stored)) => exists|invoice: InvoiceData|
                    (final(self)@, stored@) == #[trigger] inserted(old(self)@, invoice),
                Err(_) => final(self)@ == old(self)@,
            },
    {
        let record = try_receive(&self.invoice_recv);
        let ghost taken = record;
        let outcome = self.intake(record);
        proof {
            match taken {
                None => {},
                Some(code) => match invoice_of(code@.data) {
                    Err(_) => {},
                    Ok(invoice) => {
                        assert((self@, outcome->Ok_0->0@) == inserted(old(self)@, invoice));
                    },
                },
            }
        }
        outcome
    }

    /// The invoices whose totals best approximate `sum`, which is given in
    /// hundredths of the currency unit like the totals.
    pub fn get_best_invoice_match(&self, sum: i64) -> (matched: Vec<&InvoiceQR>)
        ensures
            references_view(matched@) == best_match(self@, sum as int),
    {
        let mut invoices: Vec<&InvoiceQR> = Vec::new();
        let mut i: usize = 0;
        while i < self.invoices.len()
            invariant
                i <= self.invoices@.len(),
                invoices@.len() == i,
                forall|k: int| 0 <= k < i ==> *(#[trigger] invoices@[k]) == self.invoices@[k],
            decreases self.invoices@.len() - i,
        {
            invoices.push(&self.invoices[i]);
            i = i + 1;
        }
        let value_get = |invoice: &InvoiceQR| -> (price: i64)
            ensures
                price == invoice@.price,
            { invoice.get_price() };
        let matched = self.subset_solver.solve_vector(invoices.as_slice(), sum, value_get);
        proof {
            let prices = prices_of(self@);
            let values = choose|values: Seq<i64>| #[trigger]
                values_of(invoices@, value_get, values) && matched@ == answering(
                    invoices@,
                    values,
                    self.subset_solver.subset_of_choice(values, sum as int),
                );
            assert(values =~= prices) by {
                assert forall|k: int| 0 <= k < values.len() implies values[k] == prices[k] by {
                    assert(call_ensures(value_get, (invoices@[k],), values[k]));
                    assert(self@[k] == self.invoices@[k]@);
                }
            }
            assert(references_view(matched@) =~= best_match(self@, sum as int)) by {
                assert forall|p: int| 0 <= p < matched@.len() implies references_view(
                    matched@,
                )[p] == best_match(self@, sum as int)[p] by {
                    crate::invoice::subset_problem::greedy_search::lemma_greedy_subset_is_drawn(
                        prices,
                        sum as int,
                    );
                    crate::invoice::subset_problem::lemma_slot_is_answered(
                        prices,
                        greedy_subset(prices, sum as int),
                        p,
                    );
                    let at = crate::invoice::subset_problem::answering_position(
                        prices,
                        greedy_subset(prices, sum as int),
                        p,
                    );
                    assert(self@[at] == self.invoices@[at]@);
                }
            }
        }
        matched
    }
}

/// Handing in an invoice whose number the store holds leaves the store as
/// it was, and is answered with the record that the store holds under that
/// number.
pub proof fn lemma_present_number_is_kept(store: Seq<InvoiceData>, invoice: InvoiceData, at: int)
    requires
        distinct_ids(store),
        0 <= at < store.len(),
        store[at].id == invoice.id,
    ensures
        inserted(store, invoice) == (store, store[at]),
{
    lemma_position(store, invoice.id);
}

/// Handing in an invoice whose number the store holds leaves every stored
/// record as it was and gives back the one stored first.
pub proof fn lemma_reinsert_changes_nothing(
    store: Seq<InvoiceData>,
    first: InvoiceData,
    again: InvoiceData,
)
    requires
        first.id == again.id,
    ensures
        inserted(inserted(store, first).0, again) == inserted(store, first),
{
    lemma_position(store, first.id);
    let at = position_of(store, first.id) as int;
    if at >= store.len() {
        lemma_position_is(store.push(first), first.id, at);
    }
}

/// Once an invoice was handed in, the store holds one of its number: the
/// record that it answered with.
pub proof fn lemma_inserted_is_found(store: Seq<InvoiceData>, invoice: InvoiceData)
    ensures
        position_of(inserted(store, invoice).0, invoice.id) < inserted(store, invoice).0.len(),
        inserted(store, invoice).0[position_of(inserted(store, invoice).0, invoice.id) as int]
            == inserted(store, invoice).1,
        inserted(store, invoice).1.id == invoice.id,
{
    lemma_position(store, invoice.id);
    let at = position_of(store, invoice.id) as int;
    if at >= store.len() {
        lemma_position_is(store.push(invoice), invoice.id, at);
    }
}

/// Whatever is handed in, no number comes to stand twice in the store.
pub proof fn lemma_inserted_keeps_distinct(store: Seq<InvoiceData>, invoice: InvoiceData)
    requires
        distinct_ids(store),
    ensures
        distinct_ids(inserted(store, invoice).0),
{
    lemma_position(store, invoice.id);
}

/// Of an empty store nothing matches, whatever the target.
pub proof fn lemma_nothing_matches_in_empty_store(target: int)
    ensures
        best_match(Seq::<InvoiceData>::empty(), target) == Seq::<InvoiceData>::empty(),
{
    assert(prices_of(Seq::<InvoiceData>::empty()) =~= Seq::<i64>::empty());
    assert(best_match(Seq::<InvoiceData>::empty(), target) =~= Seq::<InvoiceData>::empty());
}

/// The match depends on nothing but the invoices of the store and the
/// target: asked again of the same store for the same target, the answer is
/// the same.
pub proof fn lemma_match_is_repeatable(
    store: Seq<InvoiceData>,
    again: Seq<InvoiceData>,
    target: int,
)
    requires
        store == again,
    ensures
        best_match(store, target) == best_match(again, target),
{
}

} // verus!
