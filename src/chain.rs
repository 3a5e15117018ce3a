//! The hash chain: each stored transaction carries the hash of the one
//! stored before it, so changing any stored transaction breaks a link.
use vstd::prelude::*;

use vstd::utf8::{decode_utf8, encode_utf8};

use crate::bindings::{push_char, sha256_of};
use crate::canonical::{hex_digit, hex_text, lemma_hex_text_len};
use crate::decode::{lemma_hex_value, lemma_transaction_text_injective};
use crate::transaction::{content_with_link, link_hash, link_text, Transaction, TransactionView};

verus! {

/// The previous hash of the first transaction of a chain: 64 zeros.
pub open spec fn sentinel_hash() -> Seq<char> {
    Seq::new(64, |i: int| '0')
}

/// The previous hash for a transaction stored after `last`: the current hash
/// of `last`, or the sentinel when there is no `last` or it has no hash.
pub open spec fn prev_hash_after(last: Option<TransactionView>) -> Seq<char> {
    match last {
        Some(t) => match t.current_hash {
            Some(h) => h,
            None => sentinel_hash(),
        },
        None => sentinel_hash(),
    }
}

/// The previous hash that entry `i` of `s` must carry.
pub open spec fn expected_prev_hash(s: Seq<TransactionView>, i: int) -> Seq<char> {
    if i == 0 {
        sentinel_hash()
    } else {
        prev_hash_after(Some(s[i - 1]))
    }
}

/// Entry `i` is signed, links to its predecessor, and holds its own hash.
pub open spec fn entry_valid(s: Seq<TransactionView>, i: int) -> bool {
    &&& s[i].signature is Some
    &&& s[i].prev_hash == Some(expected_prev_hash(s, i))
    &&& s[i].current_hash == Some(link_hash(s[i]))
}

/// Every entry of `s` is valid.
pub open spec fn chain_valid(s: Seq<TransactionView>) -> bool {
    forall|i: int| 0 <= i < s.len() ==> #[trigger] entry_valid(s, i)
}

/// The models of a sequence of transactions.
pub open spec fn views(s: Seq<Transaction>) -> Seq<TransactionView> {
    s.map_values(|t: Transaction| t@)
}

/// In a valid chain the first entry links to the sentinel and every later
/// entry links to the current hash of the entry before it.
pub proof fn lemma_chain_links(s: Seq<TransactionView>, i: int)
    requires
        chain_valid(s),
        0 <= i < s.len(),
    ensures
        i == 0 ==> s[i].prev_hash == Some(sentinel_hash()),
        i > 0 ==> s[i].prev_hash == s[i - 1].current_hash,
        s[i].current_hash == Some(link_hash(s[i])),
{
    assert(entry_valid(s, i));
    if i > 0 {
        assert(entry_valid(s, i - 1));
    }
}

/// Different byte strings have different hexadecimal texts.
pub proof fn lemma_hex_text_injective(a: Seq<u8>, b: Seq<u8>)
    requires
        hex_text(a) == hex_text(b),
    ensures
        a == b,
    decreases a.len(),
{
    lemma_hex_text_len(a);
    lemma_hex_text_len(b);
    if a.len() > 0 {
        let ha = hex_text(a);
        let n = ha.len() as int;
        let x = a.last();
        let y = b.last();
        assert(ha[n - 2] == hex_digit(x as int / 16) && ha[n - 1] == hex_digit(x as int % 16));
        assert(ha[n - 2] == hex_digit(y as int / 16) && ha[n - 1] == hex_digit(y as int % 16));
        lemma_hex_value(x as int / 16);
        lemma_hex_value(x as int % 16);
        lemma_hex_value(y as int / 16);
        lemma_hex_value(y as int % 16);
        assert(x as int == 16 * (x as int / 16) + x as int % 16);
        assert(y as int == 16 * (y as int / 16) + y as int % 16);
        assert(hex_text(a.drop_last()) =~= ha.subrange(0, n - 2));
        assert(hex_text(b.drop_last()) =~= ha.subrange(0, n - 2));
        lemma_hex_text_injective(a.drop_last(), b.drop_last());
        assert(a =~= a.drop_last().push(x));
        assert(b =~= b.drop_last().push(y));
    }
}

/// Tampering is detected: where a stored entry is replaced by one whose
/// linked content differs but whose recorded hash is kept, the chain is no
/// longer valid, unless SHA-256 gives the two link texts the same digest.
pub proof fn lemma_tampering_breaks_chain(s: Seq<TransactionView>, i: int, altered: TransactionView)
    requires
        chain_valid(s),
        0 <= i < s.len(),
        altered.current_hash == s[i].current_hash,
        content_with_link(altered) != content_with_link(s[i]),
        sha256_of(encode_utf8(link_text(altered))) == sha256_of(encode_utf8(link_text(s[i])))
            ==> encode_utf8(link_text(altered)) == encode_utf8(link_text(s[i])),
    ensures
        !chain_valid(s.update(i, altered)),
{
    broadcast use vstd::utf8::encode_utf8_decode_utf8;

    assert(entry_valid(s, i));
    let t = s.update(i, altered);
    if chain_valid(t) {
        assert(entry_valid(t, i));
        assert(link_hash(altered) == link_hash(s[i]));
        lemma_hex_text_injective(
            sha256_of(encode_utf8(link_text(altered))),
            sha256_of(encode_utf8(link_text(s[i]))),
        );
        assert(decode_utf8(encode_utf8(link_text(altered))) == link_text(altered));
        assert(decode_utf8(encode_utf8(link_text(s[i]))) == link_text(s[i]));
        lemma_transaction_text_injective(content_with_link(altered), content_with_link(s[i]));
    }
}

/// The sentinel hash as text.
pub fn zero_hash() -> (r: String)
    ensures
        r@ == sentinel_hash(),
{
    let mut r = String::new();
    let mut i: usize = 0;
    while i < 64
        invariant
            i <= 64,
            r@ == Seq::new(i as nat, |j: int| '0'),
        decreases 64 - i,
    {
        push_char(&mut r, '0');
        i = i + 1;
        assert(r@ =~= Seq::new(i as nat, |j: int| '0'));
    }
    r
}

/// The previous hash for a transaction stored after `last` (the most
/// recently stored transaction, if any).
pub fn get_prev_hash(last: Option<&Transaction>) -> (r: String)
    ensures
        r@ == prev_hash_after(
            match last {
                Some(t) => Some(t@),
                None => None,
            },
        ),
{
    match last {
        Some(t) => match &t.current_hash {
            Some(h) => h.clone(),
            None => zero_hash(),
        },
        None => zero_hash(),
    }
}

/// Whether `entries`, in storage order, form a valid chain.
pub fn verify_chain(entries: &[Transaction]) -> (r: bool)
    ensures
        r == chain_valid(views(entries@)),
{
    let ghost s = views(entries@);
    let n = entries.len();
    let mut i: usize = 0;
    while i < n
        invariant
            n == entries@.len(),
            s == views(entries@),
            i <= n,
            forall|j: int| 0 <= j < i ==> #[trigger] entry_valid(s, j),
        decreases n - i,
    {
        let t = &entries[i];
        assert(s[i as int] == t@);
        if t.signature.is_none() {
            assert(!entry_valid(s, i as int));
            return false;
        }
        let expected = if i == 0 {
            zero_hash()
        } else {
            assert(s[i - 1] == entries@[i - 1]@);
            get_prev_hash(Some(&entries[i - 1]))
        };
        let linked = match &t.prev_hash {
            Some(h) => *h == expected,
            None => false,
        };
        if !linked {
            assert(!entry_valid(s, i as int));
            return false;
        }
        let own = match &t.current_hash {
            Some(h) => *h == t.link_hash_text(),
            None => false,
        };
        if !own {
            assert(!entry_valid(s, i as int));
            return false;
        }
        assert(entry_valid(s, i as int));
        i = i + 1;
    }
    true
}

/// An append-only ledger whose entries always form a valid chain.
pub struct Ledger {
    entries: Vec<Transaction>,
}

impl View for Ledger {
    type V = Seq<TransactionView>;

    closed spec fn view(&self) -> Seq<TransactionView> {
        views(self.entries@)
    }
}

impl Ledger {
    /// The ledger is well formed when its entries form a valid chain: `new`
    /// establishes this and `append` preserves it.
    pub open spec fn wf(&self) -> bool {
        chain_valid(self@)
    }

    /// An empty ledger.
    pub fn new() -> (r: Ledger)
        ensures
            r@ == Seq::<TransactionView>::empty(),
            r.wf(),
    {
        let r = Ledger { entries: Vec::new() };
        assert(views(r.entries@) =~= Seq::<TransactionView>::empty());
        r
    }

    /// Number of stored transactions.
    pub fn len(&self) -> (r: usize)
        ensures
            r == self@.len(),
    {
        self.entries.len()
    }

    /// The stored transactions, oldest first.
    pub fn entries(&self) -> (r: &[Transaction])
        ensures
            views(r@) == self@,
    {
        self.entries.as_slice()
    }

    /// The previous hash that the next stored transaction must carry.
    pub fn tail_hash(&self) -> (r: String)
        ensures
            r@ == prev_hash_after(
                if self@.len() == 0 {
                    None
                } else {
                    Some(self@.last())
                },
            ),
    {
        let n = self.entries.len();
        if n == 0 {
            get_prev_hash(None)
        } else {
            assert(self@.last() == self.entries@[n - 1]@);
            get_prev_hash(Some(&self.entries[n - 1]))
        }
    }

    /// Links a signed transaction to the tail (its previous hash), computes
    /// its own hash, and stores it. Returns the stored form.
    pub fn append(&mut self, tx: Transaction) -> (r: Transaction)
        requires
            old(self).wf(),
            tx@.signature is Some,
        ensures
            r@.prev_hash == Some(
                prev_hash_after(
                    if old(self)@.len() == 0 {
                        None
                    } else {
                        Some(old(self)@.last())
                    },
                ),
            ),
            r@.current_hash == Some(link_hash(r@)),
            r@.id == tx@.id && r@.sender_id == tx@.sender_id && r@.recipient_id == tx@.recipient_id,
            r@.amount == tx@.amount && r@.timestamp == tx@.timestamp,
            r@.signature == tx@.signature,
            final(self)@ == old(self)@.push(r@),
            final(self).wf(),
    {
        let mut tx = tx;
        let prev = self.tail_hash();
        tx.prev_hash = Some(prev);
        tx.current_hash = None;
        let hash = tx.calculate_current_hash();
        tx.current_hash = Some(hash);
        assert(link_hash(tx@) == hash@);
        let stored = tx.clone();
        let ghost before = self@;
        self.entries.push(tx);
        proof {
            let s = self@;
            assert(s =~= before.push(stored@));
            assert forall|i: int| 0 <= i < s.len() implies #[trigger] entry_valid(s, i) by {
                if i < before.len() {
                    assert(entry_valid(before, i));
                    if i > 0 {
                        assert(s[i - 1] == before[i - 1]);
                    }
                } else {
                    if i > 0 {
                        assert(s[i - 1] == before.last());
                    }
                }
            }
        }
        stored
    }

    /// Whether the stored entries still form a valid chain.
    pub fn verify(&self) -> (r: bool)
        ensures
            r == chain_valid(self@),
            self.wf() ==> r,
    {
        verify_chain(self.entries.as_slice())
    }

    /// The stored transactions, oldest first, taken out of the ledger.
    pub fn into_entries(self) -> (r: Vec<Transaction>)
        ensures
            views(r@) == self@,
    {
        self.entries
    }
}

} // verus!
