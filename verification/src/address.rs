//! Account addresses and sets of them.
//!
//! An address names an account. In text it is one character that tells its
//! kind, followed by its identifier: `@` for an established account, `~` for an
//! implicit one and `#` for an internal one.

use crate::order::{insert_once, lemma_push_to_set, union_order};
use crate::text::string_views;
use vstd::prelude::*;

verus! {

/// First character of an established address in text.
pub const ESTABLISHED_SIGIL: char = '@';

/// First character of an implicit address in text.
pub const IMPLICIT_SIGIL: char = '~';

/// First character of an internal address in text.
pub const INTERNAL_SIGIL: char = '#';

/// The identity of an account.
#[derive(Debug, PartialEq, Eq, PartialOrd, Ord, Hash)]
pub enum Address {
    /// An account that a transaction created; it has a validity predicate.
    Established(String),
    /// An account derived from a public key.
    Implicit(String),
    /// An account of the protocol itself.
    Internal(String),
}

/// What an [`Address`] stands for in contracts.
pub enum AddressView {
    Established(Seq<char>),
    Implicit(Seq<char>),
    Internal(Seq<char>),
}

impl AddressView {
    /// The character that tells the kind of the address.
    pub open spec fn sigil(self) -> char {
        match self {
            AddressView::Established(_) => ESTABLISHED_SIGIL,
            AddressView::Implicit(_) => IMPLICIT_SIGIL,
            AddressView::Internal(_) => INTERNAL_SIGIL,
        }
    }

    /// The identifier of the address.
    pub open spec fn id(self) -> Seq<char> {
        match self {
            AddressView::Established(id) => id,
            AddressView::Implicit(id) => id,
            AddressView::Internal(id) => id,
        }
    }

    /// The address in text: its sigil, then its identifier.
    pub open spec fn text(self) -> Seq<char> {
        seq![self.sigil()] + self.id()
    }
}

/// Whether a character starts an address.
pub open spec fn is_sigil(c: char) -> bool {
    c == ESTABLISHED_SIGIL || c == IMPLICIT_SIGIL || c == INTERNAL_SIGIL
}

/// The address that a text stands for, if it starts with a sigil.
pub open spec fn parse_address(text: Seq<char>) -> Option<AddressView> {
    if text.len() == 0 {
        None
    } else if text[0] == ESTABLISHED_SIGIL {
        Some(AddressView::Established(text.skip(1)))
    } else if text[0] == IMPLICIT_SIGIL {
        Some(AddressView::Implicit(text.skip(1)))
    } else if text[0] == INTERNAL_SIGIL {
        Some(AddressView::Internal(text.skip(1)))
    } else {
        None
    }
}

/// Reading the text of an address gives the address back.
pub proof fn lemma_address_text_round_trip(a: AddressView)
    ensures
        parse_address(a.text()) == Some(a),
{
    assert(a.text()[0] == a.sigil());
    assert(a.text().skip(1) =~= a.id());
}

impl View for Address {
    type V = AddressView;

    open spec fn view(&self) -> AddressView {
        match self {
            Address::Established(id) => AddressView::Established(id@),
            Address::Implicit(id) => AddressView::Implicit(id@),
            Address::Internal(id) => AddressView::Internal(id@),
        }
    }
}

impl Clone for Address {
    fn clone(&self) -> (copy: Address)
        ensures
            copy@ == self@,
    {
        match self {
            Address::Established(id) => Address::Established(id.clone()),
            Address::Implicit(id) => Address::Implicit(id.clone()),
            Address::Internal(id) => Address::Internal(id.clone()),
        }
    }
}

impl Address {
    /// Whether two addresses name the same account.
    pub fn same(&self, other: &Address) -> (equal: bool)
        ensures
            equal == (self@ == other@),
    {
        match (self, other) {
            (Address::Established(a), Address::Established(b)) => *a == *b,
            (Address::Implicit(a), Address::Implicit(b)) => *a == *b,
            (Address::Internal(a), Address::Internal(b)) => *a == *b,
            _ => false,
        }
    }

    /// The address in text.
    pub fn to_string(&self) -> (text: String)
        ensures
            text@ == self@.text(),
    {
        proof {
            reveal_strlit("@");
            reveal_strlit("~");
            reveal_strlit("#");
        }
        let (sigil, id) = match self {
            Address::Established(id) => ("@", id),
            Address::Implicit(id) => ("~", id),
            Address::Internal(id) => ("#", id),
        };
        let mut text = String::from_str(sigil);
        text.append(id.as_str());
        proof {
            assert(sigil@ =~= seq![self@.sigil()]);
        }
        text
    }

    /// Read an address from text. The text is an address exactly when it
    /// starts with a sigil.
    pub fn parse(text: &str) -> (address: Option<Address>)
        ensures
            match address {
                Some(a) => parse_address(text@) == Some(a@),
                None => parse_address(text@).is_none(),
            },
    {
        let len: usize = text.unicode_len();
        if len == 0 {
            return None;
        }
        let first: char = text.get_char(0);
        let id = String::from_str(text.substring_char(1, len));
        proof {
            assert(text@.subrange(1, len as int) =~= text@.skip(1));
        }
        if first == ESTABLISHED_SIGIL {
            Some(Address::Established(id))
        } else if first == IMPLICIT_SIGIL {
            Some(Address::Implicit(id))
        } else if first == INTERNAL_SIGIL {
            Some(Address::Internal(id))
        } else {
            None
        }
    }
}

/// The views of a sequence of addresses, in the same order.
pub open spec fn address_views(items: Seq<Address>) -> Seq<AddressView> {
    items.map_values(|a: Address| a@)
}

/// The addresses in text, in the same order.
pub open spec fn address_texts(order: Seq<AddressView>) -> Seq<Seq<char>> {
    order.map_values(|a: AddressView| a.text())
}

/// A set of addresses. Each address is held once, in the order in which it was
/// first inserted.
#[derive(Debug)]
pub struct AddressSet {
    pub items: Vec<Address>,
}

impl View for AddressSet {
    type V = Set<AddressView>;

    open spec fn view(&self) -> Set<AddressView> {
        address_views(self.items@).to_set()
    }
}

impl Clone for AddressSet {
    fn clone(&self) -> (copy: AddressSet)
        ensures
            address_views(copy.items@) == address_views(self.items@),
            copy@ == self@,
            copy.wf() == self.wf(),
    {
        let mut items: Vec<Address> = Vec::new();
        let mut i: usize = 0;
        while i < self.items.len()
            invariant
                i <= self.items.len(),
                address_views(items@) == address_views(self.items@.take(i as int)),
            decreases self.items.len() - i,
        {
            let ghost before = items@;
            let item = self.items[i].clone();
            assert(item@ == self.items@[i as int]@);
            items.push(item);
            proof {
                assert(items@ == before.push(item));
                assert(address_views(items@) =~= address_views(before).push(item@));
                assert(address_views(self.items@.take(i + 1)) =~= address_views(
                    self.items@.take(i as int),
                ).push(self.items@[i as int]@));
            }
            i += 1;
        }
        proof {
            assert(self.items@.take(i as int) =~= self.items@);
        }
        AddressSet { items }
    }
}

impl AddressSet {
    /// No address is held twice.
    pub open spec fn wf(&self) -> bool {
        address_views(self.items@).no_duplicates()
    }

    /// The addresses in the order in which they were inserted.
    pub open spec fn order(&self) -> Seq<AddressView> {
        address_views(self.items@)
    }

    /// The addresses in text, in the order in which they were inserted.
    pub fn to_strings(&self) -> (texts: Vec<String>)
        ensures
            string_views(texts@) == address_texts(self.order()),
    {
        let mut texts: Vec<String> = Vec::new();
        let mut i: usize = 0;
        proof {
            assert(string_views(texts@) =~= address_texts(self.order().take(0)));
        }
        while i < self.items.len()
            invariant
                i <= self.items.len(),
                string_views(texts@) == address_texts(self.order().take(i as int)),
            decreases self.items.len() - i,
        {
            let ghost before = texts@;
            let text = self.items[i].to_string();
            texts.push(text);
            proof {
                assert(string_views(texts@) =~= string_views(before).push(text@));
                assert(address_texts(self.order().take(i + 1)) =~= address_texts(
                    self.order().take(i as int),
                ).push(text@));
            }
            i += 1;
        }
        proof {
            assert(self.order().take(i as int) =~= self.order());
        }
        texts
    }

    /// The empty set.
    pub fn new() -> (set: AddressSet)
        ensures
            set.wf(),
            set@ == Set::<AddressView>::empty(),
            set.items@.len() == 0,
            set.order() == Seq::<AddressView>::empty(),
    {
        let set = AddressSet { items: Vec::new() };
        proof {
            assert(set@ =~= Set::<AddressView>::empty());
            assert(set.order() =~= Seq::<AddressView>::empty());
        }
        set
    }

    /// The number of addresses in the set.
    pub fn len(&self) -> (n: usize)
        requires
            self.wf(),
        ensures
            n == self@.len(),
            self@.finite(),
    {
        proof {
            address_views(self.items@).unique_seq_to_set();
        }
        self.items.len()
    }

    /// Whether the set holds no address.
    pub fn is_empty(&self) -> (empty: bool)
        ensures
            empty == (self@ == Set::<AddressView>::empty()),
            empty == (self.order().len() == 0),
    {
        proof {
            if self.items@.len() > 0 {
                assert(address_views(self.items@)[0] == self.items@[0]@);
                assert(self@.contains(self.items@[0]@));
            } else {
                assert(self@ =~= Set::<AddressView>::empty());
            }
        }
        self.items.len() == 0
    }

    /// Whether the set holds `address`.
    pub fn contains(&self, address: &Address) -> (found: bool)
        ensures
            found == self@.contains(address@),
    {
        let mut i: usize = 0;
        while i < self.items.len()
            invariant
                i <= self.items.len(),
                forall|j: int| 0 <= j < i ==> address_views(self.items@)[j] != address@,
            decreases self.items.len() - i,
        {
            if self.items[i].same(address) {
                proof {
                    assert(address_views(self.items@)[i as int] == address@);
                }
                return true;
            }
            i += 1;
        }
        false
    }

    /// Add `address` to the set. Returns whether it was new.
    pub fn insert(&mut self, address: Address) -> (added: bool)
        requires
            old(self).wf(),
        ensures
            final(self).wf(),
            final(self)@ == old(self)@.insert(address@),
            added == !old(self)@.contains(address@),
            final(self).order() == insert_once(old(self).order(), address@),
    {
        if self.contains(&address) {
            proof {
                assert(self@ =~= self@.insert(address@));
                assert(old(self).order().contains(address@));
            }
            false
        } else {
            let ghost before = address_views(self.items@);
            self.items.push(address);
            proof {
                assert(address_views(self.items@) =~= before.push(address@));
                lemma_push_to_set(before, address@);
                assert(!before.contains(address@));
            }
            true
        }
    }

    /// The union of two sets: the addresses of `self`, then those of `other`
    /// that `self` does not hold.
    pub fn union(&self, other: &AddressSet) -> (both: AddressSet)
        requires
            self.wf(),
        ensures
            both.wf(),
            both@ == self@.union(other@),
            both.order() == union_order(self.order(), other.order()),
    {
        let mut both = self.clone();
        let mut i: usize = 0;
        while i < other.items.len()
            invariant
                i <= other.items.len(),
                both.wf(),
                both@ == self@.union(address_views(other.items@.take(i as int)).to_set()),
                both.order() == union_order(
                    self.order(),
                    address_views(other.items@.take(i as int)),
                ),
            decreases other.items.len() - i,
        {
            let ghost before = address_views(other.items@.take(i as int));
            both.insert(other.items[i].clone());
            proof {
                assert(address_views(other.items@.take(i + 1)) =~= before.push(
                    other.items@[i as int]@,
                ));
                lemma_push_to_set(before, other.items@[i as int]@);
                assert(both@ =~= self@.union(address_views(other.items@.take(i + 1)).to_set()));
                assert(before.push(other.items@[i as int]@).drop_last() =~= before);
            }
            i += 1;
        }
        proof {
            assert(other.items@.take(i as int) =~= other.items@);
        }
        both
    }
}

} // verus!
