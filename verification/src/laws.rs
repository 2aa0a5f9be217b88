//! What the engine promises, stated over the bits and bytes of events, over
//! moments, and over the alerts themselves.
//!
//! The contracts speak of models, such as what a detector remembers. The laws here
//! say what comes of these models, whatever they are made of.

use vstd::prelude::*;

pub mod answers;
pub mod counters;
pub mod flow;
pub mod ring;
pub mod sequences;
pub mod signatures;
pub mod texts;
pub mod traffic;
pub mod views;
pub mod windows;
pub mod workers;

verus! {

/// SYN is set and ACK is clear.
pub open spec fn opens_connection(event: crate::models::NetworkEventView) -> bool {
    event.flags & 1 == 1 && event.flags & 2 == 0
}

/// The characters of `text`, one byte each, stand in `payload` from `at` on.
pub open spec fn stands_at(payload: Seq<u8>, text: Seq<char>, at: int) -> bool {
    &&& 0 <= at && at + text.len() <= payload.len()
    &&& forall|j: int| 0 <= j < text.len() ==> payload[at + j] == #[trigger] text[j] as u8
}

/// The characters of `text` stand somewhere in `payload`.
pub open spec fn stands_in(payload: Seq<u8>, text: Seq<char>) -> bool {
    exists|at: int| stands_at(payload, text, at)
}

/// How many of `alerts` are of the rule `name`.
pub open spec fn named(alerts: Seq<crate::models::AlertView>, name: Seq<char>) -> nat
    decreases alerts.len(),
{
    if alerts.len() == 0 {
        0
    } else {
        named(alerts.drop_last(), name) + if alerts.last().rule_name == name {
            1nat
        } else {
            0nat
        }
    }
}

pub proof fn lemma_named_joined(
    a: Seq<crate::models::AlertView>,
    b: Seq<crate::models::AlertView>,
    name: Seq<char>,
)
    ensures
        named(a + b, name) == named(a, name) + named(b, name),
    decreases b.len(),
{
    if b.len() == 0 {
        assert(a + b =~= a);
    } else {
        lemma_named_joined(a, b.drop_last(), name);
        assert((a + b).drop_last() =~= a + b.drop_last());
    }
}

pub proof fn lemma_named_single(alert: crate::models::AlertView, name: Seq<char>)
    ensures
        named(seq![alert], name) == (if alert.rule_name == name {
            1nat
        } else {
            0nat
        }),
        named(Seq::empty(), name) == 0,
{
    assert(seq![alert].drop_last() =~= Seq::empty());
    assert(named(seq![alert].drop_last(), name) == 0);
}

/// An event is a connection attempt if and only if SYN is set and ACK is clear.
pub proof fn law_attempt_by_its_flags(event: crate::models::NetworkEventView)
    ensures
        crate::models::is_syn(event) <==> opens_connection(event),
{
    let f = event.flags;
    assert((f & 1 != 0) == (f & 1 == 1)) by (bit_vector);
}

/// A search finds a text if and only if its bytes stand somewhere in a row.
pub proof fn law_search_finds_bytes(payload: Seq<u8>, text: Seq<char>)
    ensures
        crate::text::occurs(payload, crate::text::ascii(text)) <==> stands_in(payload, text),
        forall|at: int|
            #[trigger] crate::text::occurs_at(payload, crate::text::ascii(text), at) <==> stands_at(
                payload,
                text,
                at,
            ),
{
    let needle = crate::text::ascii(text);
    assert forall|at: int|
        #[trigger] crate::text::occurs_at(payload, needle, at) <==> stands_at(payload, text, at) by {
        if stands_at(payload, text, at) {
            assert(payload.subrange(at, at + needle.len()) =~= needle);
        }
        if crate::text::occurs_at(payload, needle, at) {
            assert forall|j: int| 0 <= j < text.len() implies payload[at + j] == #[trigger] text[j] as u8 by {
                assert(payload.subrange(at, at + needle.len())[j] == needle[j]);
            }
        }
    }
    if stands_in(payload, text) {
        let at = choose|at: int| stands_at(payload, text, at);
        assert(crate::text::occurs_at(payload, needle, at));
    }
    if crate::text::occurs(payload, needle) {
        let at = choose|at: int| crate::text::occurs_at(payload, needle, at);
        assert(stands_at(payload, text, at));
    }
}

/// A search finds bytes if and only if they stand somewhere in a row.
pub proof fn law_search_finds_any_bytes(haystack: Seq<u8>, needle: Seq<u8>)
    ensures
        crate::text::occurs(haystack, needle) <==> exists|at: int| #[trigger]
            bytes_stand_at(haystack, needle, at),
{
    if crate::text::occurs(haystack, needle) {
        let at = choose|at: int| crate::text::occurs_at(haystack, needle, at);
        assert forall|j: int| 0 <= j < needle.len() implies haystack[at + j]
            == #[trigger] needle[j] by {
            assert(haystack.subrange(at, at + needle.len())[j] == needle[j]);
        }
        assert(bytes_stand_at(haystack, needle, at));
    }
    if exists|at: int| #[trigger] bytes_stand_at(haystack, needle, at) {
        let at = choose|at: int| #[trigger] bytes_stand_at(haystack, needle, at);
        assert(haystack.subrange(at, at + needle.len()) =~= needle);
        assert(crate::text::occurs_at(haystack, needle, at));
    }
}

/// The bytes of `needle` stand in `haystack` from `at` on.
pub open spec fn bytes_stand_at(haystack: Seq<u8>, needle: Seq<u8>, at: int) -> bool {
    &&& 0 <= at && at + needle.len() <= haystack.len()
    &&& forall|j: int| 0 <= j < needle.len() ==> haystack[at + j] == #[trigger] needle[j]
}

} // verus!
