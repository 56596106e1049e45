//! Storage keys.
//!
//! A key is a sequence of segments, each an address or a plain string. In text
//! the segments are joined by `/`, and a segment that starts with an address
//! sigil is an address.

use crate::address::{
    is_sigil, lemma_address_text_round_trip, parse_address, Address, AddressSet, AddressView,
};
use crate::order::insert_once;
use vstd::prelude::*;

verus! {

/// The character between two segments of a key in text.
pub const SEPARATOR: char = '/';

/// The segment under which an account's validity predicate is stored.
pub const VP_SEGMENT: &'static str = "?";

/// Why a text is not a key.
#[derive(Clone, Copy, Debug, PartialEq, Eq, Structural)]
pub enum KeyError {
    /// Between two separators, or before the first or after the last, there is
    /// nothing.
    EmptySegment,
}

/// One segment of a key.
#[derive(Debug, PartialEq, Eq, PartialOrd, Ord, Hash)]
pub enum DbKeySeg {
    AddressSeg(Address),
    StringSeg(String),
}

/// What a [`DbKeySeg`] stands for in contracts.
pub enum KeySegView {
    AddressSeg(AddressView),
    StringSeg(Seq<char>),
}

impl KeySegView {
    /// The segment in text.
    pub open spec fn text(self) -> Seq<char> {
        match self {
            KeySegView::AddressSeg(a) => a.text(),
            KeySegView::StringSeg(s) => s,
        }
    }

    /// The segment can be read back from its text: it holds no separator, and
    /// a plain string is not empty and does not start like an address.
    pub open spec fn wf(self) -> bool {
        &&& !self.text().contains(SEPARATOR)
        &&& match self {
            KeySegView::AddressSeg(_) => true,
            KeySegView::StringSeg(s) => s.len() > 0 && !is_sigil(s[0]),
        }
    }
}

/// The segment that a piece of text between two separators stands for.
pub open spec fn parse_segment(piece: Seq<char>) -> KeySegView {
    match parse_address(piece) {
        Some(a) => KeySegView::AddressSeg(a),
        None => KeySegView::StringSeg(piece),
    }
}

/// The position of the first separator in `s`, or the length of `s` if it
/// holds none.
pub open spec fn index_of_separator(s: Seq<char>) -> int
    decreases s.len(),
{
    if s.len() == 0 || s[0] == SEPARATOR {
        0
    } else {
        1 + index_of_separator(s.skip(1))
    }
}

/// The pieces of `s` between its separators, in order. A text without a
/// separator is one piece.
pub open spec fn split_path(s: Seq<char>) -> Seq<Seq<char>>
    decreases s.len(),
{
    let i = index_of_separator(s);
    if 0 <= i < s.len() {
        seq![s.take(i)] + split_path(s.skip(i + 1))
    } else {
        seq![s]
    }
}

/// The pieces joined by separators.
pub open spec fn join_path(pieces: Seq<Seq<char>>) -> Seq<char>
    decreases pieces.len(),
{
    if pieces.len() == 0 {
        Seq::empty()
    } else if pieces.len() == 1 {
        pieces[0]
    } else {
        join_path(pieces.drop_last()) + seq![SEPARATOR] + pieces.last()
    }
}

/// The texts of the segments of a key, in order.
pub open spec fn segment_texts(key: Seq<KeySegView>) -> Seq<Seq<char>> {
    key.map_values(|seg: KeySegView| seg.text())
}

/// A key in text: the texts of its segments joined by separators.
pub open spec fn key_text(key: Seq<KeySegView>) -> Seq<char> {
    join_path(segment_texts(key))
}

/// The key that a text stands for. The empty text is the key without
/// segments; any other text is split at its separators, and is a key exactly
/// when no piece is empty.
pub open spec fn parse_key(text: Seq<char>) -> Result<Seq<KeySegView>, KeyError> {
    if text.len() == 0 {
        Ok(Seq::empty())
    } else if exists|i: int| 0 <= i < split_path(text).len() && #[trigger] split_path(text)[i].len() == 0 {
        Err(KeyError::EmptySegment)
    } else {
        Ok(split_path(text).map_values(|piece: Seq<char>| parse_segment(piece)))
    }
}

/// Every segment of the key can be read back from its text.
pub open spec fn key_wf(key: Seq<KeySegView>) -> bool {
    forall|i: int| 0 <= i < key.len() ==> (#[trigger] key[i]).wf()
}

/// The addresses among the segments of a key.
pub open spec fn key_addresses(key: Seq<KeySegView>) -> Set<AddressView> {
    Set::new(|a: AddressView| key.contains(KeySegView::AddressSeg(a)))
}

/// The addresses among the segments of a key, each once, in the order in
/// which they first appear.
pub open spec fn key_address_order(key: Seq<KeySegView>) -> Seq<AddressView>
    decreases key.len(),
{
    if key.len() == 0 {
        Seq::empty()
    } else {
        match key.last() {
            KeySegView::AddressSeg(a) => insert_once(key_address_order(key.drop_last()), a),
            KeySegView::StringSeg(_) => key_address_order(key.drop_last()),
        }
    }
}

/// Where the first separator is: after `j` characters that are none.
pub proof fn lemma_index_of_separator(s: Seq<char>, j: int)
    requires
        0 <= j <= s.len(),
        forall|k: int| 0 <= k < j ==> s[k] != SEPARATOR,
        j == s.len() || s[j] == SEPARATOR,
    ensures
        index_of_separator(s) == j,
    decreases j,
{
    if j > 0 {
        lemma_index_of_separator(s.skip(1), j - 1);
    }
}

/// A text whose first separator is at `j` splits into what stands before it
/// and the pieces of what stands after it.
pub proof fn lemma_split_at_separator(s: Seq<char>, j: int)
    requires
        0 <= j < s.len(),
        forall|k: int| 0 <= k < j ==> s[k] != SEPARATOR,
        s[j] == SEPARATOR,
    ensures
        split_path(s) == seq![s.take(j)] + split_path(s.skip(j + 1)),
{
    lemma_index_of_separator(s, j);
}

/// A text without a separator is one piece.
pub proof fn lemma_split_without_separator(s: Seq<char>)
    requires
        !s.contains(SEPARATOR),
    ensures
        split_path(s) == seq![s],
{
    assert forall|k: int| 0 <= k < s.len() implies s[k] != SEPARATOR by {
        if s[k] == SEPARATOR {
            assert(s.contains(SEPARATOR));
        }
    }
    lemma_index_of_separator(s, s.len() as int);
}

/// Joining two or more pieces: the first, a separator, and the rest joined.
pub proof fn lemma_join_path_front(pieces: Seq<Seq<char>>)
    requires
        pieces.len() >= 2,
    ensures
        join_path(pieces) == pieces[0] + seq![SEPARATOR] + join_path(pieces.skip(1)),
    decreases pieces.len(),
{
    if pieces.len() == 2 {
        assert(pieces.drop_last().len() == 1);
        assert(pieces.skip(1).len() == 1);
        assert(join_path(pieces.drop_last()) == pieces[0]);
        assert(join_path(pieces.skip(1)) == pieces[1]);
    } else {
        lemma_join_path_front(pieces.drop_last());
        assert(pieces.drop_last().skip(1) =~= pieces.skip(1).drop_last());
        assert(pieces.skip(1).last() == pieces.last());
        assert(join_path(pieces) =~= pieces[0] + seq![SEPARATOR] + join_path(pieces.skip(1)));
    }
}

/// Splitting what was joined gives the pieces back, if none holds a separator.
pub proof fn lemma_split_join(pieces: Seq<Seq<char>>)
    requires
        pieces.len() >= 1,
        forall|i: int| 0 <= i < pieces.len() ==> !(#[trigger] pieces[i]).contains(SEPARATOR),
    ensures
        split_path(join_path(pieces)) == pieces,
    decreases pieces.len(),
{
    if pieces.len() == 1 {
        lemma_split_without_separator(pieces[0]);
        assert(seq![pieces[0]] =~= pieces);
    } else {
        let first = pieces[0];
        let rest = pieces.skip(1);
        let text = join_path(pieces);
        lemma_join_path_front(pieces);
        assert forall|i: int| 0 <= i < rest.len() implies !(#[trigger] rest[i]).contains(
            SEPARATOR,
        ) by {
            assert(rest[i] == pieces[i + 1]);
        }
        lemma_split_join(rest);
        let j = first.len() as int;
        assert forall|k: int| 0 <= k < j implies text[k] != SEPARATOR by {
            assert(text[k] == first[k]);
            if first[k] == SEPARATOR {
                assert(first.contains(SEPARATOR));
            }
        }
        assert(text[j] == SEPARATOR);
        lemma_split_at_separator(text, j);
        assert(text.take(j) =~= first);
        assert(text.skip(j + 1) =~= join_path(rest));
        assert(seq![first] + rest =~= pieces);
    }
}

/// No separator stands before the first separator.
pub proof fn lemma_before_separator(s: Seq<char>, k: int)
    requires
        0 <= k < index_of_separator(s),
    ensures
        k < s.len(),
        s[k] != SEPARATOR,
        index_of_separator(s) <= s.len(),
    decreases s.len(),
{
    if s.len() > 0 && s[0] != SEPARATOR {
        if k > 0 {
            lemma_before_separator(s.skip(1), k - 1);
        } else if index_of_separator(s.skip(1)) > 0 {
            lemma_before_separator(s.skip(1), 0);
        }
    }
}

/// The first separator is where it is said to be, or there is none.
pub proof fn lemma_at_separator(s: Seq<char>)
    ensures
        0 <= index_of_separator(s) <= s.len(),
        index_of_separator(s) < s.len() ==> s[index_of_separator(s)] == SEPARATOR,
    decreases s.len(),
{
    if s.len() > 0 && s[0] != SEPARATOR {
        lemma_at_separator(s.skip(1));
    }
}

/// The pieces of a text hold no separator, there is at least one piece, and
/// the pieces joined are the text.
pub proof fn lemma_join_split(s: Seq<char>)
    ensures
        split_path(s).len() >= 1,
        forall|i: int| 0 <= i < split_path(s).len() ==> !(#[trigger] split_path(s)[i]).contains(SEPARATOR),
        join_path(split_path(s)) == s,
    decreases s.len(),
{
    let at = index_of_separator(s);
    lemma_at_separator(s);
    if at < s.len() {
        let first = s.take(at);
        let rest = split_path(s.skip(at + 1));
        lemma_join_split(s.skip(at + 1));
        let pieces = seq![first] + rest;
        assert(!first.contains(SEPARATOR)) by {
            if first.contains(SEPARATOR) {
                let k = choose|k: int| 0 <= k < first.len() && first[k] == SEPARATOR;
                lemma_before_separator(s, k);
            }
        }
        assert forall|i: int| 0 <= i < pieces.len() implies !(#[trigger] pieces[i]).contains(
            SEPARATOR,
        ) by {
            if i > 0 {
                assert(pieces[i] == rest[i - 1]);
            }
        }
        lemma_join_path_front(pieces);
        assert(pieces.skip(1) =~= rest);
        assert(first + seq![SEPARATOR] + s.skip(at + 1) =~= s);
    } else {
        assert(!s.contains(SEPARATOR)) by {
            if s.contains(SEPARATOR) {
                let k = choose|k: int| 0 <= k < s.len() && s[k] == SEPARATOR;
                lemma_before_separator(s, k);
            }
        }
    }
}

/// A piece without a separator that is not empty stands for a segment that
/// can be read back, and the text of that segment is the piece.
pub proof fn lemma_parse_segment_text(piece: Seq<char>)
    requires
        piece.len() > 0,
        !piece.contains(SEPARATOR),
    ensures
        parse_segment(piece).text() == piece,
        parse_segment(piece).wf(),
{
    match parse_address(piece) {
        Some(a) => {
            assert(a.text() =~= piece);
        },
        None => {},
    }
}

/// A key that was read from a text can be read back, and its text is the
/// text that it was read from.
pub proof fn lemma_parse_key_text(text: Seq<char>)
    requires
        parse_key(text).is_ok(),
    ensures
        key_wf(parse_key(text).unwrap()),
        key_text(parse_key(text).unwrap()) == text,
{
    let key = parse_key(text).unwrap();
    if text.len() == 0 {
        assert(key_text(key) =~= text);
    } else {
        let pieces = split_path(text);
        lemma_join_split(text);
        assert forall|i: int| 0 <= i < key.len() implies (#[trigger] key[i]).wf() && key[i].text()
            == pieces[i] by {
            assert(pieces[i].len() > 0);
            assert(!pieces[i].contains(SEPARATOR));
            lemma_parse_segment_text(pieces[i]);
        }
        assert(segment_texts(key) =~= pieces);
    }
}

/// A segment that can be read back is read back from its text.
pub proof fn lemma_segment_round_trip(seg: KeySegView)
    requires
        seg.wf(),
    ensures
        parse_segment(seg.text()) == seg,
        seg.text().len() > 0,
{
    match seg {
        KeySegView::AddressSeg(a) => {
            lemma_address_text_round_trip(a);
        },
        KeySegView::StringSeg(s) => {},
    }
}

/// Reading the text of a key gives the key back, for every key whose
/// segments can be read back.
pub proof fn lemma_key_round_trip(key: Seq<KeySegView>)
    requires
        key_wf(key),
    ensures
        parse_key(key_text(key)) == Ok::<Seq<KeySegView>, KeyError>(key),
{
    let pieces = segment_texts(key);
    if key.len() == 0 {
        assert(key =~= Seq::<KeySegView>::empty());
    } else {
        assert forall|i: int| 0 <= i < pieces.len() implies !(#[trigger] pieces[i]).contains(
            SEPARATOR,
        ) && pieces[i].len() > 0 && parse_segment(pieces[i]) == key[i] by {
            assert(key[i].wf());
            lemma_segment_round_trip(key[i]);
        }
        lemma_split_join(pieces);
        lemma_join_path_nonempty(pieces);
        assert(split_path(key_text(key)).map_values(|piece: Seq<char>| parse_segment(piece))
            =~= key);
    }
}

/// Joined pieces are not empty if the first piece is not.
pub proof fn lemma_join_path_nonempty(pieces: Seq<Seq<char>>)
    requires
        pieces.len() >= 1,
        pieces[0].len() > 0,
    ensures
        join_path(pieces).len() > 0,
{
    if pieces.len() >= 2 {
        lemma_join_path_front(pieces);
    }
}

/// Joining one more piece: a separator before it, unless it is the first.
pub proof fn lemma_join_path_push(pieces: Seq<Seq<char>>, piece: Seq<char>)
    ensures
        join_path(pieces.push(piece)) == if pieces.len() == 0 {
            piece
        } else {
            join_path(pieces) + seq![SEPARATOR] + piece
        },
{
    assert(pieces.push(piece).drop_last() =~= pieces);
}

impl View for DbKeySeg {
    type V = KeySegView;

    open spec fn view(&self) -> KeySegView {
        match self {
            DbKeySeg::AddressSeg(a) => KeySegView::AddressSeg(a@),
            DbKeySeg::StringSeg(s) => KeySegView::StringSeg(s@),
        }
    }
}

impl Clone for DbKeySeg {
    fn clone(&self) -> (copy: DbKeySeg)
        ensures
            copy@ == self@,
    {
        match self {
            DbKeySeg::AddressSeg(a) => DbKeySeg::AddressSeg(a.clone()),
            DbKeySeg::StringSeg(s) => DbKeySeg::StringSeg(s.clone()),
        }
    }
}

impl DbKeySeg {
    /// Whether two segments are the same.
    pub fn same(&self, other: &DbKeySeg) -> (equal: bool)
        ensures
            equal == (self@ == other@),
    {
        match (self, other) {
            (DbKeySeg::AddressSeg(a), DbKeySeg::AddressSeg(b)) => a.same(b),
            (DbKeySeg::StringSeg(a), DbKeySeg::StringSeg(b)) => *a == *b,
            _ => false,
        }
    }

    /// Read a segment from the text between two separators: an address if it
    /// starts with a sigil, a plain string otherwise.
    pub fn parse(piece: &str) -> (seg: DbKeySeg)
        ensures
            seg@ == parse_segment(piece@),
    {
        match Address::parse(piece) {
            Some(a) => DbKeySeg::AddressSeg(a),
            None => DbKeySeg::StringSeg(String::from_str(piece)),
        }
    }

    /// The segment in text.
    pub fn to_string(&self) -> (text: String)
        ensures
            text@ == self@.text(),
    {
        match self {
            DbKeySeg::AddressSeg(a) => a.to_string(),
            DbKeySeg::StringSeg(s) => s.clone(),
        }
    }
}

/// The views of a sequence of segments, in the same order.
pub open spec fn segment_views(segments: Seq<DbKeySeg>) -> Seq<KeySegView> {
    segments.map_values(|seg: DbKeySeg| seg@)
}

/// A storage key. Keys are ordered segment by segment.
#[derive(Debug, PartialEq, Eq, PartialOrd, Ord, Hash)]
pub struct Key {
    pub segments: Vec<DbKeySeg>,
}

impl View for Key {
    type V = Seq<KeySegView>;

    open spec fn view(&self) -> Seq<KeySegView> {
        segment_views(self.segments@)
    }
}

impl Clone for Key {
    fn clone(&self) -> (copy: Key)
        ensures
            copy@ == self@,
    {
        let mut segments: Vec<DbKeySeg> = Vec::new();
        let mut i: usize = 0;
        while i < self.segments.len()
            invariant
                i <= self.segments.len(),
                segment_views(segments@) == segment_views(self.segments@.take(i as int)),
            decreases self.segments.len() - i,
        {
            let ghost before = segments@;
            let seg = self.segments[i].clone();
            segments.push(seg);
            proof {
                assert(segment_views(segments@) =~= segment_views(before).push(seg@));
                assert(segment_views(self.segments@.take(i + 1)) =~= segment_views(
                    self.segments@.take(i as int),
                ).push(self.segments@[i as int]@));
            }
            i += 1;
        }
        proof {
            assert(self.segments@.take(i as int) =~= self.segments@);
        }
        Key { segments }
    }
}

impl Key {
    /// Whether two keys are the same.
    pub fn same(&self, other: &Key) -> (equal: bool)
        ensures
            equal == (self@ == other@),
    {
        if self.segments.len() != other.segments.len() {
            proof {
                assert(self@.len() != other@.len());
            }
            return false;
        }
        let mut i: usize = 0;
        while i < self.segments.len()
            invariant
                i <= self.segments.len(),
                self.segments.len() == other.segments.len(),
                forall|j: int| 0 <= j < i ==> self@[j] == other@[j],
            decreases self.segments.len() - i,
        {
            if !self.segments[i].same(&other.segments[i]) {
                proof {
                    assert(self@[i as int] != other@[i as int]);
                }
                return false;
            }
            i += 1;
        }
        proof {
            assert(self@ =~= other@);
        }
        true
    }

    /// Read a key from text.
    pub fn parse(string: String) -> (result: Result<Key, KeyError>)
        ensures
            match result {
                Ok(key) => parse_key(string@) == Ok::<Seq<KeySegView>, KeyError>(key@),
                Err(e) => parse_key(string@) == Err::<Seq<KeySegView>, KeyError>(e),
            },
            result matches Ok(key) ==> key_wf(key@) && key_text(key@) == string@,
    {
        proof {
            if parse_key(string@).is_ok() {
                lemma_parse_key_text(string@);
            }
        }
        let text = string.as_str();
        let len: usize = text.unicode_len();
        let mut segments: Vec<DbKeySeg> = Vec::new();
        if len == 0 {
            proof {
                assert(segment_views(segments@) =~= Seq::<KeySegView>::empty());
            }
            return Ok(Key { segments });
        }
        let ghost mut done: Seq<Seq<char>> = Seq::empty();
        let mut start: usize = 0;
        let mut i: usize = 0;
        proof {
            assert(text@.skip(0) =~= text@);
            assert(done + split_path(text@) =~= split_path(text@));
        }
        while i < len
            invariant
                text@ == string@,
                len == text@.len(),
                len > 0,
                start <= i <= len,
                forall|k: int| start <= k < i ==> text@[k] != SEPARATOR,
                split_path(text@) == done + split_path(text@.skip(start as int)),
                forall|k: int| 0 <= k < done.len() ==> (#[trigger] done[k]).len() > 0,
                segment_views(segments@) == done.map_values(|piece: Seq<char>| parse_segment(piece)),
            decreases len - i,
        {
            if text.get_char(i) == SEPARATOR {
                let ghost tail = text@.skip(start as int);
                proof {
                    lemma_split_at_separator(tail, i - start);
                    assert(tail.take(i - start) =~= text@.subrange(start as int, i as int));
                    assert(tail.skip(i - start + 1) =~= text@.skip(i + 1));
                }
                if i == start {
                    proof {
                        let pieces = split_path(text@);
                        let rest = seq![tail.take(0)] + split_path(text@.skip(i + 1));
                        assert(pieces == done + rest);
                        assert(rest[0] == tail.take(0));
                        assert(pieces[done.len() as int] == rest[0]);
                        assert(pieces[done.len() as int].len() == 0);
                    }
                    return Err(KeyError::EmptySegment);
                }
                let piece = text.substring_char(start, i);
                let seg = DbKeySeg::parse(piece);
                let ghost before = segments@;
                segments.push(seg);
                proof {
                    assert(segment_views(segments@) =~= segment_views(before).push(seg@));
                    assert(done.push(piece@).map_values(|p: Seq<char>| parse_segment(p)) =~= done.map_values(
                        |p: Seq<char>| parse_segment(p),
                    ).push(parse_segment(piece@)));
                    assert(done + (seq![piece@] + split_path(text@.skip(i + 1))) =~= done.push(
                        piece@,
                    ) + split_path(text@.skip(i + 1)));
                    done = done.push(piece@);
                }
                start = i + 1;
            }
            i += 1;
        }
        let ghost tail = text@.skip(start as int);
        proof {
            assert forall|k: int| 0 <= k < tail.len() implies tail[k] != SEPARATOR by {
                assert(tail[k] == text@[start + k]);
            }
            lemma_index_of_separator(tail, tail.len() as int);
            assert(split_path(tail) == seq![tail]);
            assert(done + seq![tail] =~= done.push(tail));
        }
        if start == len {
            proof {
                let pieces = split_path(text@);
                assert(pieces == done.push(tail));
                assert(pieces[done.len() as int] == tail);
                assert(pieces[done.len() as int].len() == 0);
            }
            return Err(KeyError::EmptySegment);
        }
        let piece = text.substring_char(start, len);
        let seg = DbKeySeg::parse(piece);
        let ghost before = segments@;
        segments.push(seg);
        proof {
            assert(piece@ =~= tail);
            assert(segment_views(segments@) =~= segment_views(before).push(seg@));
            assert(done.push(tail).map_values(|p: Seq<char>| parse_segment(p)) =~= done.map_values(
                |p: Seq<char>| parse_segment(p),
            ).push(parse_segment(tail)));
            let pieces = split_path(text@);
            assert(pieces == done.push(tail));
            assert forall|k: int| 0 <= k < pieces.len() implies (#[trigger] pieces[k]).len()
                > 0 by {
                if k < done.len() {
                    assert(pieces[k] == done[k]);
                }
            }
        }
        Ok(Key { segments })
    }

    /// The key in text.
    pub fn to_string(&self) -> (text: String)
        ensures
            text@ == key_text(self@),
    {
        let mut text = String::new();
        let mut i: usize = 0;
        while i < self.segments.len()
            invariant
                i <= self.segments.len(),
                text@ == key_text(self@.take(i as int)),
            decreases self.segments.len() - i,
        {
            proof {
                reveal_strlit("/");
                let pieces = segment_texts(self@.take(i as int));
                let piece = self@[i as int].text();
                lemma_join_path_push(pieces, piece);
                assert(segment_texts(self@.take(i + 1)) =~= pieces.push(piece));
                assert("/"@ =~= seq![SEPARATOR]);
            }
            if i > 0 {
                text.append("/");
            }
            let piece = self.segments[i].to_string();
            text.append(piece.as_str());
            proof {
                if i == 0 {
                    assert(text@ =~= self@[i as int].text());
                }
            }
            i += 1;
        }
        proof {
            assert(self@.take(i as int) =~= self@);
        }
        text
    }

    /// All addresses that appear among the segments of the key.
    pub fn find_addresses(&self) -> (found: AddressSet)
        ensures
            found.wf(),
            found@ == key_addresses(self@),
            found.order() == key_address_order(self@),
    {
        let mut found = AddressSet::new();
        let mut i: usize = 0;
        while i < self.segments.len()
            invariant
                i <= self.segments.len(),
                found.wf(),
                found@ == key_addresses(self@.take(i as int)),
                found.order() == key_address_order(self@.take(i as int)),
            decreases self.segments.len() - i,
        {
            let ghost before = self@.take(i as int);
            proof {
                assert(self@.take(i + 1) =~= before.push(self@[i as int]));
                assert(before.push(self@[i as int]).drop_last() =~= before);
            }
            match &self.segments[i] {
                DbKeySeg::AddressSeg(a) => {
                    found.insert(a.clone());
                    proof {
                        lemma_key_addresses_push(before, self@[i as int]);
                    }
                },
                DbKeySeg::StringSeg(_) => {
                    proof {
                        lemma_key_addresses_push(before, self@[i as int]);
                    }
                },
            }
            i += 1;
        }
        proof {
            assert(self@.take(i as int) =~= self@);
        }
        found
    }

    /// The key under which the validity predicate of `address` is stored.
    pub fn validity_predicate(address: &Address) -> (key: Key)
        ensures
            key@ == seq![
                KeySegView::AddressSeg(address@),
                KeySegView::StringSeg(VP_SEGMENT@),
            ],
    {
        let mut segments: Vec<DbKeySeg> = Vec::new();
        segments.push(DbKeySeg::AddressSeg(address.clone()));
        segments.push(DbKeySeg::StringSeg(String::from_str(VP_SEGMENT)));
        let key = Key { segments };
        proof {
            assert(key@ =~= seq![
                KeySegView::AddressSeg(address@),
                KeySegView::StringSeg(VP_SEGMENT@),
            ]);
        }
        key
    }
}

/// The addresses of a key with one more segment.
pub proof fn lemma_key_addresses_push(key: Seq<KeySegView>, seg: KeySegView)
    ensures
        key_addresses(key.push(seg)) == match seg {
            KeySegView::AddressSeg(a) => key_addresses(key).insert(a),
            KeySegView::StringSeg(_) => key_addresses(key),
        },
{
    let longer = key.push(seg);
    let expected = match seg {
        KeySegView::AddressSeg(a) => key_addresses(key).insert(a),
        KeySegView::StringSeg(_) => key_addresses(key),
    };
    assert forall|a: AddressView| key_addresses(longer).contains(a) <==> expected.contains(
        a,
    ) by {
        let target = KeySegView::AddressSeg(a);
        if longer.contains(target) {
            let i = choose|i: int| 0 <= i < longer.len() && longer[i] == target;
            if i < key.len() {
                assert(key[i] == target);
            }
        }
        if key.contains(target) {
            let i = choose|i: int| 0 <= i < key.len() && key[i] == target;
            assert(longer[i] == target);
        }
        if seg == target {
            assert(longer[key.len() as int] == target);
        }
    }
    assert(key_addresses(longer) =~= expected);
}

} // verus!
