//! What the platform sees of the publish/subscribe transport.

use crate::decimal::{append_signed, decimal_of, lemma_decimal_is_injective};
use vstd::prelude::*;
use vstd::string::StringExecFns;

verus! {

/// The namespace of the channels on which devices publish.
pub const TOPIC_PREFIX: &'static str = "hello-rufi/gradient";

/// The outcome of one attempt to receive from the network.
#[derive(Debug, PartialEq, Eq)]
pub enum NetworkUpdate {
    /// No message has arrived.
    NoUpdate,
    /// A message has arrived; `msg` is its serialized form.
    Update { msg: String },
}

/// The channel of device `id`: the namespace, a slash and the identifier in
/// decimal.
pub open spec fn topic_of(id: i32) -> Seq<char> {
    TOPIC_PREFIX@ + seq!['/'] + decimal_of(id as int)
}

/// The name of the channel on which device `id` publishes and to which its
/// neighbours subscribe.
pub fn topic(id: i32) -> (name: String)
    ensures
        name@ == topic_of(id),
{
    let mut name = TOPIC_PREFIX.to_owned();
    name.append("/");
    proof {
        reveal_strlit("/");
        assert("/"@ =~= seq!['/']);
    }
    append_signed(&mut name, id);
    name
}

/// No two devices share a channel.
pub proof fn law_topics_do_not_collide(a: i32, b: i32)
    requires
        topic_of(a) == topic_of(b),
    ensures
        a == b,
{
    let head = TOPIC_PREFIX@ + seq!['/'];
    let of_a = decimal_of(a as int);
    let of_b = decimal_of(b as int);
    assert(of_a =~= (head + of_a).skip(head.len() as int));
    assert(of_b =~= (head + of_b).skip(head.len() as int));
    lemma_decimal_is_injective(a as int, b as int);
}

} // verus!
