//! Penumbra addresses, the values that are sent to them, and the transactions that send these.

use vstd::prelude::*;

verus! {

/// A Penumbra address, by the texts that stand for it.
#[derive(Debug, PartialEq, Eq)]
pub struct Address {
    /// The encoding of the whole address. Two addresses are the same if this is.
    pub encoded: String,
    /// The abbreviation that is shown to users.
    pub short: String,
}

impl Clone for Address {
    fn clone(&self) -> (copy: Self)
        ensures
            copy == *self,
    {
        Address { encoded: self.encoded.clone(), short: self.short.clone() }
    }
}

/// A piece of a message that is a Penumbra address, or that only looks like one.
#[derive(Debug, PartialEq, Eq)]
pub enum AddressOrAlmost {
    /// A valid address.
    Address(Box<Address>),
    /// A text that has the shape of an address, but is none.
    Almost(String),
}

impl Clone for AddressOrAlmost {
    fn clone(&self) -> (copy: Self)
        ensures
            copy == *self,
    {
        match self {
            AddressOrAlmost::Address(address) => {
                AddressOrAlmost::Address(Box::new((&**address).clone()))
            },
            AddressOrAlmost::Almost(text) => AddressOrAlmost::Almost(text.clone()),
        }
    }
}

/// Whether two pieces are both valid and the same address, or both invalid and the same text.
pub open spec fn same_piece(a: AddressOrAlmost, b: AddressOrAlmost) -> bool {
    match (a, b) {
        (AddressOrAlmost::Address(a), AddressOrAlmost::Address(b)) => a.encoded@ == b.encoded@,
        (AddressOrAlmost::Almost(a), AddressOrAlmost::Almost(b)) => a@ == b@,
        _ => false,
    }
}

/// Whether a piece is the same as one of a list.
pub open spec fn among(piece: AddressOrAlmost, pieces: Seq<AddressOrAlmost>) -> bool {
    exists|i: int| 0 <= i < pieces.len() && same_piece(piece, #[trigger] pieces[i])
}

impl AddressOrAlmost {
    /// Returns whether this is the same address, or the same invalid text, as another.
    pub fn same_as(&self, other: &AddressOrAlmost) -> (same: bool)
        ensures
            same == same_piece(*self, *other),
    {
        match (self, other) {
            (AddressOrAlmost::Address(a), AddressOrAlmost::Address(b)) => a.encoded == b.encoded,
            (AddressOrAlmost::Almost(a), AddressOrAlmost::Almost(b)) => *a == *b,
            _ => false,
        }
    }

    /// Returns whether this is the same as one of a list.
    pub fn is_among(&self, pieces: &Vec<AddressOrAlmost>) -> (found: bool)
        ensures
            found == among(*self, pieces@),
    {
        let mut i: usize = 0;
        while i < pieces.len()
            invariant
                i <= pieces@.len(),
                forall|j: int| 0 <= j < i ==> !same_piece(*self, #[trigger] pieces@[j]),
            decreases pieces@.len() - i,
        {
            if self.same_as(&pieces[i]) {
                return true;
            }
            i = i + 1;
        }
        false
    }
}

/// Returns a copy of a list of pieces.
pub fn copy_pieces(pieces: &Vec<AddressOrAlmost>) -> (copy: Vec<AddressOrAlmost>)
    ensures
        copy@ == pieces@,
{
    let mut copy: Vec<AddressOrAlmost> = Vec::new();
    let mut i: usize = 0;
    while i < pieces.len()
        invariant
            i <= pieces@.len(),
            copy@ == pieces@.take(i as int),
        decreases pieces@.len() - i,
    {
        copy.push(pieces[i].clone());
        i = i + 1;
        assert(copy@ =~= pieces@.take(i as int));
    }
    assert(pieces@.take(i as int) =~= pieces@);
    copy
}

/// The identifier of an asset.
#[derive(Clone, Copy, Debug, PartialEq, Eq, PartialOrd, Ord)]
pub struct AssetId {
    pub bytes: [u8; 32],
}

/// An amount of an asset.
#[derive(Clone, Copy, Debug, PartialEq, Eq)]
pub struct Value {
    /// How much, in the asset's smallest unit.
    pub amount: u128,
    /// Of which asset.
    pub asset_id: AssetId,
}

/// The identifier of a transaction, by the text that stands for it.
#[derive(Debug, PartialEq, Eq)]
pub struct TransactionId {
    /// The hash of the transaction.
    pub hash: [u8; 32],
    /// The hash as it is shown to users.
    pub text: String,
}

impl Clone for TransactionId {
    fn clone(&self) -> (copy: Self)
        ensures
            copy == *self,
    {
        TransactionId { hash: self.hash, text: self.text.clone() }
    }
}

/// Two valid pieces are the same if the whole encodings of the addresses are, two invalid ones if
/// the texts are, and a valid piece is never the same as an invalid one.
pub proof fn law_pieces_are_told_apart(a: Address, b: Address, s: String, t: String)
    ensures
        same_piece(AddressOrAlmost::Address(Box::new(a)), AddressOrAlmost::Address(Box::new(b)))
            <==> a.encoded@ == b.encoded@,
        same_piece(AddressOrAlmost::Almost(s), AddressOrAlmost::Almost(t)) <==> s@ == t@,
        !same_piece(AddressOrAlmost::Address(Box::new(a)), AddressOrAlmost::Almost(s)),
        !same_piece(AddressOrAlmost::Almost(s), AddressOrAlmost::Address(Box::new(a))),
{
}

/// A piece is among every list that it stands in, wherever it stands, and among no list of pieces
/// all of which differ from it.
pub proof fn law_pieces_are_found(piece: AddressOrAlmost, pieces: Seq<AddressOrAlmost>)
    ensures
        pieces.contains(piece) ==> among(piece, pieces),
        (forall|i: int| 0 <= i < pieces.len() ==> !same_piece(piece, #[trigger] pieces[i]))
            ==> !among(piece, pieces),
        forall|i: int|
            0 <= i < pieces.len() && same_piece(piece, #[trigger] pieces[i]) ==> among(
                piece,
                pieces,
            ),
{
    if pieces.contains(piece) {
        let i = choose|i: int| 0 <= i < pieces.len() && pieces[i] == piece;
        assert(same_piece(piece, pieces[i]));
    }
}

} // verus!
