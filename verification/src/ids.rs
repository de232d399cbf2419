//! The codec of a stored cell value: a string that holds option ids in
//! order, with a separator between them.

use vstd::prelude::*;
use crate::text::{texts, lemma_texts_push};

verus! {

broadcast use vstd::string::group_string_axioms;

/// The character that stands between two ids in a stored cell value.
pub const SELECTION_IDS_SEPARATOR: char = ',';

/// An id that a cell value can hold and give back: it is not empty and the
/// separator does not occur in it.
pub open spec fn storable_id(id: Seq<char>) -> bool {
    id.len() > 0 && !id.contains(SELECTION_IDS_SEPARATOR)
}

/// Every id of the sequence is storable.
pub open spec fn storable_ids(ids: Seq<Seq<char>>) -> bool {
    forall|i: int| 0 <= i < ids.len() ==> storable_id(#[trigger] ids[i])
}

/// The number of characters before the first separator of `raw`, or the
/// length of `raw` where it holds none.
pub open spec fn fragment_len(raw: Seq<char>) -> nat
    decreases raw.len(),
{
    if raw.len() == 0 || raw[0] == SELECTION_IDS_SEPARATOR {
        0
    } else {
        1 + fragment_len(raw.skip(1))
    }
}

/// The ids that a stored value holds: the fragments between separators, in
/// order, without the empty ones.
pub open spec fn parse_ids(raw: Seq<char>) -> Seq<Seq<char>>
    decreases raw.len(),
{
    if raw.len() == 0 {
        Seq::empty()
    } else {
        let k = fragment_len(raw) as int;
        let rest = if 0 <= k < raw.len() {
            parse_ids(raw.skip(k + 1))
        } else {
            Seq::empty()
        };
        if k == 0 {
            rest
        } else {
            seq![raw.take(k)] + rest
        }
    }
}

/// The stored value of a sequence of ids: the ids in order, with one
/// separator between each two.
pub open spec fn join_ids(ids: Seq<Seq<char>>) -> Seq<char>
    decreases ids.len(),
{
    if ids.len() == 0 {
        Seq::empty()
    } else if ids.len() == 1 {
        ids[0]
    } else {
        ids[0] + seq![SELECTION_IDS_SEPARATOR] + join_ids(ids.skip(1))
    }
}

/// A fragment without a separator, followed by nothing or by a separator,
/// is exactly what `fragment_len` measures.
pub proof fn lemma_fragment_len(head: Seq<char>, tail: Seq<char>)
    requires
        !head.contains(SELECTION_IDS_SEPARATOR),
        tail.len() == 0 || tail[0] == SELECTION_IDS_SEPARATOR,
    ensures
        fragment_len(head + tail) == head.len(),
    decreases head.len(),
{
    let raw = head + tail;
    if head.len() == 0 {
        assert(raw =~= tail);
    } else {
        assert(head.contains(head[0]));
        assert(raw[0] == head[0]);
        let rest = head.skip(1);
        assert forall|c: char| rest.contains(c) implies head.contains(c) by {
            let i = choose|i: int| 0 <= i < rest.len() && rest[i] == c;
            assert(head[i + 1] == c);
        }
        lemma_fragment_len(rest, tail);
        assert(raw.skip(1) =~= rest + tail);
    }
}

/// Parsing a fragment without a separator, followed by nothing or by a
/// separator and more: the fragment, if it is not empty, then what the rest
/// after the separator holds.
pub proof fn lemma_parse_fragment(head: Seq<char>, tail: Seq<char>)
    requires
        !head.contains(SELECTION_IDS_SEPARATOR),
        tail.len() == 0 || tail[0] == SELECTION_IDS_SEPARATOR,
    ensures
        parse_ids(head + tail) == (if head.len() == 0 {
            Seq::<Seq<char>>::empty()
        } else {
            seq![head]
        }) + (if tail.len() == 0 {
            Seq::<Seq<char>>::empty()
        } else {
            parse_ids(tail.skip(1))
        }),
{
    let raw = head + tail;
    lemma_fragment_len(head, tail);
    let k = head.len() as int;
    if raw.len() > 0 {
        assert(raw.take(k) =~= head);
        if tail.len() > 0 {
            assert(raw.skip(k + 1) =~= tail.skip(1));
        }
    }
    let first = if head.len() == 0 { Seq::<Seq<char>>::empty() } else { seq![head] };
    let rest = if tail.len() == 0 { Seq::<Seq<char>>::empty() } else { parse_ids(tail.skip(1)) };
    assert(parse_ids(raw) =~= first + rest);
}

/// Joining one more id behind a sequence that is not empty adds a separator
/// and the id.
pub proof fn lemma_join_push(ids: Seq<Seq<char>>, id: Seq<char>)
    requires
        ids.len() > 0,
    ensures
        join_ids(ids.push(id)) == join_ids(ids) + seq![SELECTION_IDS_SEPARATOR] + id,
    decreases ids.len(),
{
    let all = ids.push(id);
    if ids.len() == 1 {
        assert(all.skip(1) =~= seq![id]);
        assert(join_ids(all.skip(1)) == id);
    } else {
        lemma_join_push(ids.skip(1), id);
        assert(all.skip(1) =~= ids.skip(1).push(id));
        assert(join_ids(all) =~= join_ids(ids) + seq![SELECTION_IDS_SEPARATOR] + id);
    }
}

/// No separator stands before the end of the first fragment.
pub proof fn lemma_fragment_is_clean(raw: Seq<char>)
    ensures
        fragment_len(raw) <= raw.len(),
        !raw.take(fragment_len(raw) as int).contains(SELECTION_IDS_SEPARATOR),
    decreases raw.len(),
{
    let k = fragment_len(raw) as int;
    if raw.len() == 0 || raw[0] == SELECTION_IDS_SEPARATOR {
        assert(raw.take(0).len() == 0);
    } else {
        let rest = raw.skip(1);
        lemma_fragment_is_clean(rest);
        let head = raw.take(k);
        assert forall|i: int| 0 <= i < head.len() implies head[i] != SELECTION_IDS_SEPARATOR by {
            if i > 0 {
                let inner = rest.take(k - 1);
                assert(inner[i - 1] == head[i]);
                assert(inner.contains(inner[i - 1]));
            }
        }
    }
}

/// Whatever the stored value, each id read from it is storable.
pub proof fn lemma_parse_storable(raw: Seq<char>)
    ensures
        storable_ids(parse_ids(raw)),
    decreases raw.len(),
{
    if raw.len() > 0 {
        let k = fragment_len(raw) as int;
        lemma_fragment_is_clean(raw);
        if k < raw.len() {
            lemma_parse_storable(raw.skip(k + 1));
        }
    }
}

/// Round trip: a sequence of storable ids that is written to a cell value
/// and read again comes back as it was, repeated ids and order included.
pub proof fn lemma_parse_join(ids: Seq<Seq<char>>)
    requires
        storable_ids(ids),
    ensures
        parse_ids(join_ids(ids)) == ids,
    decreases ids.len(),
{
    if ids.len() == 0 {
        assert(parse_ids(join_ids(ids)) =~= ids);
    } else if ids.len() == 1 {
        let none = Seq::<char>::empty();
        lemma_parse_fragment(ids[0], none);
        assert(ids[0] + none =~= ids[0]);
        assert(parse_ids(join_ids(ids)) =~= ids);
    } else {
        let rest = ids.skip(1);
        let tail = seq![SELECTION_IDS_SEPARATOR] + join_ids(rest);
        assert(storable_ids(rest)) by {
            assert forall|i: int| 0 <= i < rest.len() implies storable_id(#[trigger] rest[i]) by {
                assert(rest[i] == ids[i + 1]);
            }
        }
        lemma_parse_join(rest);
        lemma_parse_fragment(ids[0], tail);
        assert(tail.skip(1) =~= join_ids(rest));
        assert(join_ids(ids) =~= ids[0] + tail);
        assert(seq![ids[0]] + rest =~= ids);
    }
}

/// The ids that a cell refers to, in order.
#[derive(Debug)]
pub struct SelectOptionIds(pub Vec<String>);

impl View for SelectOptionIds {
    type V = Seq<Seq<char>>;

    open spec fn view(&self) -> Seq<Seq<char>> {
        texts(self.0@)
    }
}

impl SelectOptionIds {
    /// Reads the ids out of a stored cell value. Every value is accepted:
    /// an empty fragment holds no id and is passed over.
    pub fn parse(raw: &str) -> (ids: SelectOptionIds)
        ensures
            ids@ == parse_ids(raw@),
            storable_ids(ids@),
    {
        proof {
            lemma_parse_storable(raw@);
        }
        let mut out: Vec<String> = Vec::new();
        let mut cur = String::new();
        proof {
            assert(cur@ + raw@.skip(0) =~= raw@);
            assert(texts(out@) + parse_ids(raw@) =~= parse_ids(raw@));
        }
        for c in it: raw.chars()
            invariant
                it.seq() == raw@,
                !cur@.contains(SELECTION_IDS_SEPARATOR),
                parse_ids(raw@) == texts(out@) + parse_ids(cur@ + raw@.skip(it.index())),
        {
            let ghost tail = raw@.skip(it.index());
            assert(tail.skip(1) =~= raw@.skip(it.index() + 1));
            if c == SELECTION_IDS_SEPARATOR {
                proof {
                    lemma_parse_fragment(cur@, tail);
                }
                if cur.as_str().is_empty() {
                    assert(parse_ids(cur@ + tail) =~= parse_ids(tail.skip(1)));
                } else {
                    proof {
                        lemma_texts_push(out@, cur);
                        assert(texts(out@) + (seq![cur@] + parse_ids(tail.skip(1))) =~= texts(
                            out@,
                        ).push(cur@) + parse_ids(tail.skip(1)));
                    }
                    out.push(cur);
                }
                cur = String::new();
                assert(cur@ + tail.skip(1) =~= tail.skip(1));
            } else {
                let ghost before = cur@;
                cur.push(c);
                assert(cur@ + tail.skip(1) =~= before + tail);
                assert forall|x: char| cur@.contains(x) implies x != SELECTION_IDS_SEPARATOR by {
                    let i = choose|i: int| 0 <= i < cur@.len() && cur@[i] == x;
                    if i < before.len() {
                        assert(before.contains(x));
                    }
                }
            }
        }
        proof {
            let tail = raw@.skip(raw@.len() as int);
            assert(tail.len() == 0);
            lemma_parse_fragment(cur@, tail);
        }
        if !cur.as_str().is_empty() {
            proof {
                lemma_texts_push(out@, cur);
            }
            out.push(cur);
        }
        SelectOptionIds(out)
    }

    /// The stored cell value of these ids: the ids in order, with a
    /// separator between each two; the empty string where there is none.
    pub fn to_string(&self) -> (raw: String)
        ensures
            raw@ == join_ids(self@),
    {
        let mut raw = String::new();
        let mut i: usize = 0;
        while i < self.0.len()
            invariant
                i <= self.0.len(),
                raw@ == join_ids(self@.take(i as int)),
            decreases self.0.len() - i,
        {
            proof {
                assert(self@.take(i + 1) =~= self@.take(i as int).push(self@[i as int]));
                if i > 0 {
                    lemma_join_push(self@.take(i as int), self@[i as int]);
                }
            }
            if i > 0 {
                raw.push(SELECTION_IDS_SEPARATOR);
            }
            raw.push_str(self.0[i].as_str());
            i += 1;
        }
        assert(self@.take(i as int) =~= self@);
        raw
    }

    /// The ids as a vector of strings.
    pub fn into_inner(self) -> (ids: Vec<String>)
        ensures
            texts(ids@) == self@,
    {
        self.0
    }
}

impl From<String> for SelectOptionIds {
    /// Reads the ids out of a stored cell value, as `parse` does.
    fn from(raw: String) -> (ids: SelectOptionIds)
        ensures
            ids@ == parse_ids(raw@),
            storable_ids(ids@),
    {
        SelectOptionIds::parse(raw.as_str())
    }
}

impl vstd::std_specs::convert::FromSpecImpl<String> for SelectOptionIds {
    /// The conversion is described by its view, in the `ensures` of `from`:
    /// which strings hold the ids is left open.
    open spec fn obeys_from_spec() -> bool {
        false
    }

    open spec fn from_spec(raw: String) -> SelectOptionIds {
        arbitrary()
    }
}

} // verus!
