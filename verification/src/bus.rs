//! The message bus: topics, the errors of bus operations, and what each
//! outcome reported by the bus core means.

use vstd::prelude::*;

use crate::text::str_eq;
use crate::text_map::TextMap;

verus! {

/// The message that a subscriber receives once it has been unsubscribed.
pub const SENTINEL: &'static str = "__luo9_unsubscribed__";

/// Errors of bus operations.
#[derive(Debug, Clone, Copy, PartialEq, Eq, Structural)]
pub enum BusError {
    InitFailed,
    PublishFailed,
    SubscribeFailed,
    WaitPopFailed,
    NotInitialized,
    InvalidString,
    UnsubscribeFailed,
    /// The subscriber has been unsubscribed (it received the sentinel).
    Unsubscribed,
}

/// Entry point of the bus.
pub struct Bus;

/// A named topic of the bus.
pub struct Topic<'a> {
    name: &'a str,
}

impl Bus {
    /// The topic called `name`.
    pub fn topic<'a>(name: &'a str) -> (t: Topic<'a>)
        ensures
            t.name_view() == name@,
    {
        Topic { name }
    }

    /// What the status the bus core returns on initialisation means:
    /// 0 (initialised now) and -1 (initialised before) are success.
    pub fn init_status(ret: i32) -> (r: Result<(), BusError>)
        ensures
            r == if ret == 0 || ret == -1 {
                Ok::<(), BusError>(())
            } else {
                Err(BusError::InitFailed)
            },
    {
        if ret != 0 && ret != -1 {
            return Err(BusError::InitFailed);
        }
        Ok(())
    }
}

impl<'a> Topic<'a> {
    /// The characters of the topic's name.
    pub closed spec fn name_view(&self) -> Seq<char> {
        self.name@
    }

    /// The topic's name.
    pub fn name(&self) -> (r: &'a str)
        ensures
            r@ == self.name_view(),
    {
        self.name
    }

    /// The subscriber id that subscribing to this topic gives without asking
    /// the bus core: the one the host created for the topic, recorded in
    /// `precreated` (absent until the host registered any). `None` means the
    /// core must be asked (see `subscribe_status`).
    pub fn precreated_id(&self, precreated: Option<&TextMap<usize>>) -> (r: Option<usize>)
        ensures
            match precreated {
                Some(table) => if table@.contains_key(self.name_view()) {
                    r == Some(table@[self.name_view()])
                } else {
                    r is None
                },
                None => r is None,
            },
    {
        match precreated {
            Some(table) => match table.get(self.name) {
                Some(id) => Some(*id),
                None => None,
            },
            None => None,
        }
    }

    /// What the status the bus core returns on subscribing means: a
    /// non-negative status is the subscriber's id.
    pub fn subscribe_status(ret: i32) -> (r: Result<usize, BusError>)
        ensures
            r == if ret >= 0 {
                Ok::<usize, BusError>(ret as usize)
            } else {
                Err(BusError::SubscribeFailed)
            },
    {
        if ret >= 0 {
            Ok(ret as usize)
        } else {
            Err(BusError::SubscribeFailed)
        }
    }

    /// What the status the bus core returns on unsubscribing means: 0 is success.
    pub fn unsubscribe_status(ret: i32) -> (r: Result<(), BusError>)
        ensures
            r == if ret == 0 {
                Ok::<(), BusError>(())
            } else {
                Err(BusError::UnsubscribeFailed)
            },
    {
        if ret == 0 {
            Ok(())
        } else {
            Err(BusError::UnsubscribeFailed)
        }
    }

    /// What the status the bus core returns on publishing means: 0 is
    /// success, -2 says the bus is not initialised.
    pub fn publish_status(ret: i32) -> (r: Result<(), BusError>)
        ensures
            r == if ret == 0 {
                Ok::<(), BusError>(())
            } else if ret == -2 {
                Err(BusError::NotInitialized)
            } else {
                Err(BusError::PublishFailed)
            },
    {
        if ret == 0 {
            Ok(())
        } else if ret == -2 {
            Err(BusError::NotInitialized)
        } else {
            Err(BusError::PublishFailed)
        }
    }

    /// What a non-blocking pop yields for the message the bus core handed
    /// back (`None` when the queue was empty): no message for an empty queue,
    /// and `Unsubscribed` when the sentinel says the subscriber was
    /// unsubscribed.
    pub fn pop_status(msg: Option<String>) -> (r: Result<Option<String>, BusError>)
        ensures
            match msg {
                None => r == Ok::<Option<String>, BusError>(None),
                Some(m) => if m@ == SENTINEL@ {
                    r == Err::<Option<String>, BusError>(BusError::Unsubscribed)
                } else {
                    r == Ok::<Option<String>, BusError>(Some(m))
                },
            },
    {
        match msg {
            None => Ok(None),
            Some(m) => {
                if str_eq(m.as_str(), SENTINEL) {
                    Err(BusError::Unsubscribed)
                } else {
                    Ok(Some(m))
                }
            },
        }
    }

    /// What a blocking pop yields for the message the bus core handed back
    /// (`None` when the wait failed): the sentinel says the subscriber was
    /// unsubscribed.
    pub fn wait_pop_status(msg: Option<String>) -> (r: Result<String, BusError>)
        ensures
            match msg {
                None => r == Err::<String, BusError>(BusError::WaitPopFailed),
                Some(m) => if m@ == SENTINEL@ {
                    r == Err::<String, BusError>(BusError::Unsubscribed)
                } else {
                    r == Ok::<String, BusError>(m)
                },
            },
    {
        match msg {
            None => Err(BusError::WaitPopFailed),
            Some(m) => {
                if str_eq(m.as_str(), SENTINEL) {
                    Err(BusError::Unsubscribed)
                } else {
                    Ok(m)
                }
            },
        }
    }
}

} // verus!
