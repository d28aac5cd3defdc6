//! Plugin SDK for the Luo9 bot: command matching, message building,
//! bus payloads and the request frames sent over the bus.

use vstd::prelude::*;

pub mod bus;
pub mod command;
pub mod json;
pub mod message;
pub mod pattern;
pub mod payload;
pub mod send;
pub mod text;
pub mod text_map;
pub mod version;

verus! {

/// Entry point for sending and managing messages.
pub struct Bot;

/// Entry point for building messages.
pub struct Msg;

} // verus!

verus! {

/// The subscriber ids that the host created for a plugin, one per topic; a
/// negative id means none was created.
#[derive(Debug, Clone, Copy)]
pub struct PluginSubscribers {
    pub message_sub_id: i32,
    pub meta_event_sub_id: i32,
    pub notice_sub_id: i32,
    pub request_sub_id: i32,
    pub task_sub_id: i32,
    pub send_sub_id: i32,
}

/// Each topic with the id the host created for it, in this order.
pub open spec fn subscriber_ids(subs: PluginSubscribers) -> Seq<(Seq<char>, i32)> {
    seq![
        ("luo9_message"@, subs.message_sub_id),
        ("luo9_meta_event"@, subs.meta_event_sub_id),
        ("luo9_notice"@, subs.notice_sub_id),
        ("luo9_request"@, subs.request_sub_id),
        ("luo9_task"@, subs.task_sub_id),
        ("luo9_send"@, subs.send_sub_id),
    ]
}

/// The table `m` after recording, in order, each (topic, id) with a
/// non-negative id.
pub open spec fn register_ids(m: Map<Seq<char>, usize>, ids: Seq<(Seq<char>, i32)>) -> Map<
    Seq<char>,
    usize,
>
    decreases ids.len(),
{
    if ids.len() == 0 {
        m
    } else {
        let before = register_ids(m, ids.drop_last());
        if ids.last().1 >= 0 {
            before.insert(ids.last().0, ids.last().1 as usize)
        } else {
            before
        }
    }
}

/// Records `id` for `topic` when it is non-negative.
fn register_one(table: &mut text_map::TextMap<usize>, topic: &str, id: i32)
    ensures
        final(table)@ == if id >= 0 {
            old(table)@.insert(topic@, id as usize)
        } else {
            old(table)@
        },
{
    if id >= 0 {
        table.insert(topic.to_owned(), id as usize);
    }
}

impl PluginSubscribers {
    /// Records in `table` the id of each topic for which the host created a
    /// subscriber, so that subscribing to that topic gives that id.
    pub fn register(&self, table: &mut text_map::TextMap<usize>)
        ensures
            final(table)@ == register_ids(old(table)@, subscriber_ids(*self)),
    {
        let ghost ids = subscriber_ids(*self);
        let ghost m0 = table@;
        assert(register_ids(m0, ids.take(0)) == m0);
        register_one(table, "luo9_message", self.message_sub_id);
        assert(table@ == register_ids(m0, ids.take(1))) by {
            assert(ids.take(1).drop_last() =~= ids.take(0));
            assert(ids.take(1).last() == ids[0]);
        }
        register_one(table, "luo9_meta_event", self.meta_event_sub_id);
        assert(table@ == register_ids(m0, ids.take(2))) by {
            assert(ids.take(2).drop_last() =~= ids.take(1));
            assert(ids.take(2).last() == ids[1]);
        }
        register_one(table, "luo9_notice", self.notice_sub_id);
        assert(table@ == register_ids(m0, ids.take(3))) by {
            assert(ids.take(3).drop_last() =~= ids.take(2));
            assert(ids.take(3).last() == ids[2]);
        }
        register_one(table, "luo9_request", self.request_sub_id);
        assert(table@ == register_ids(m0, ids.take(4))) by {
            assert(ids.take(4).drop_last() =~= ids.take(3));
            assert(ids.take(4).last() == ids[3]);
        }
        register_one(table, "luo9_task", self.task_sub_id);
        assert(table@ == register_ids(m0, ids.take(5))) by {
            assert(ids.take(5).drop_last() =~= ids.take(4));
            assert(ids.take(5).last() == ids[4]);
        }
        register_one(table, "luo9_send", self.send_sub_id);
        assert(table@ == register_ids(m0, ids.take(6))) by {
            assert(ids.take(6).drop_last() =~= ids.take(5));
            assert(ids.take(6).last() == ids[5]);
        }
        assert(ids.take(6) =~= ids);
    }
}

/// No topic appears twice among the pairs.
pub open spec fn distinct_topics(ids: Seq<(Seq<char>, i32)>) -> bool {
    forall|i: int, j: int| 0 <= i < j < ids.len() ==> (#[trigger] ids[i]).0 != (#[trigger] ids[j]).0
}

proof fn lemma_register_other_key(m: Map<Seq<char>, usize>, ids: Seq<(Seq<char>, i32)>, k: Seq<char>)
    requires
        forall|i: int| 0 <= i < ids.len() ==> (#[trigger] ids[i]).0 != k,
    ensures
        register_ids(m, ids).contains_key(k) == m.contains_key(k),
        m.contains_key(k) ==> register_ids(m, ids)[k] == m[k],
    decreases ids.len(),
{
    if ids.len() > 0 {
        assert(ids.last() == ids[ids.len() - 1]);
        lemma_register_other_key(m, ids.drop_last(), k);
    }
}

proof fn lemma_register_key(m: Map<Seq<char>, usize>, ids: Seq<(Seq<char>, i32)>, i: int)
    requires
        distinct_topics(ids),
        0 <= i < ids.len(),
    ensures
        ids[i].1 >= 0 ==> register_ids(m, ids).contains_key(ids[i].0) && register_ids(m, ids)[ids[i].0]
            == ids[i].1 as usize,
        ids[i].1 < 0 ==> register_ids(m, ids).contains_key(ids[i].0) == m.contains_key(ids[i].0),
        ids[i].1 < 0 && m.contains_key(ids[i].0) ==> register_ids(m, ids)[ids[i].0] == m[ids[i].0],
    decreases ids.len(),
{
    let last = ids.len() - 1;
    assert(ids.last() == ids[last]);
    if i == last {
        assert forall|j: int| 0 <= j < ids.drop_last().len() implies (#[trigger] ids.drop_last()[j]).0
            != ids[i].0 by {
            assert(ids.drop_last()[j] == ids[j]);
        }
        lemma_register_other_key(m, ids.drop_last(), ids[i].0);
    } else {
        assert(ids.drop_last()[i] == ids[i]);
        assert(distinct_topics(ids.drop_last())) by {
            assert forall|a: int, b: int| 0 <= a < b < ids.drop_last().len() implies (
            #[trigger] ids.drop_last()[a]).0 != (#[trigger] ids.drop_last()[b]).0 by {
                assert(ids.drop_last()[a] == ids[a]);
                assert(ids.drop_last()[b] == ids[b]);
            }
        }
        lemma_register_key(m, ids.drop_last(), i);
    }
}

/// After registering, a topic for which the host created a subscriber gives
/// that subscriber's id, a topic without one keeps what the table held for
/// it, and topics other than the six are untouched.
pub proof fn law_register_lookup(m: Map<Seq<char>, usize>, subs: PluginSubscribers, k: Seq<char>)
    ensures
        forall|i: int|
            0 <= i < 6 && (#[trigger] subscriber_ids(subs)[i]).0 == k ==> {
                &&& subscriber_ids(subs)[i].1 >= 0 ==> register_ids(m, subscriber_ids(subs)).contains_key(k)
                    && register_ids(m, subscriber_ids(subs))[k] == subscriber_ids(subs)[i].1 as usize
                &&& subscriber_ids(subs)[i].1 < 0 ==> register_ids(m, subscriber_ids(subs)).contains_key(k)
                    == m.contains_key(k)
                &&& subscriber_ids(subs)[i].1 < 0 && m.contains_key(k) ==> register_ids(
                    m,
                    subscriber_ids(subs),
                )[k] == m[k]
            },
        (forall|i: int| 0 <= i < 6 ==> (#[trigger] subscriber_ids(subs)[i]).0 != k) ==> {
            &&& register_ids(m, subscriber_ids(subs)).contains_key(k) == m.contains_key(k)
            &&& m.contains_key(k) ==> register_ids(m, subscriber_ids(subs))[k] == m[k]
        },
{
    let ids = subscriber_ids(subs);
    reveal_strlit("luo9_message");
    reveal_strlit("luo9_meta_event");
    reveal_strlit("luo9_notice");
    reveal_strlit("luo9_request");
    reveal_strlit("luo9_task");
    reveal_strlit("luo9_send");
    assert(distinct_topics(ids)) by {
        assert(ids[0].0[5] == 'm' && ids[1].0[5] == 'm' && ids[1].0.len() != ids[0].0.len());
        assert(ids[2].0[5] == 'n');
        assert(ids[3].0[5] == 'r');
        assert(ids[4].0[5] == 't');
        assert(ids[5].0[5] == 's');
    }
    assert forall|i: int| 0 <= i < 6 && (#[trigger] subscriber_ids(subs)[i]).0 == k implies {
        &&& subscriber_ids(subs)[i].1 >= 0 ==> register_ids(m, subscriber_ids(subs)).contains_key(k)
            && register_ids(m, subscriber_ids(subs))[k] == subscriber_ids(subs)[i].1 as usize
        &&& subscriber_ids(subs)[i].1 < 0 ==> register_ids(m, subscriber_ids(subs)).contains_key(k)
            == m.contains_key(k)
        &&& subscriber_ids(subs)[i].1 < 0 && m.contains_key(k) ==> register_ids(
            m,
            subscriber_ids(subs),
        )[k] == m[k]
    } by {
        lemma_register_key(m, ids, i);
    }
    if forall|i: int| 0 <= i < 6 ==> (#[trigger] subscriber_ids(subs)[i]).0 != k {
        lemma_register_other_key(m, ids, k);
    }
}

} // verus!
