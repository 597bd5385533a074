//! Bootstrap: establishing a first connection before any typed channel
//! exists between two parties.
//!
//! A [`Bootstrap`] is the transport's name space, created by the surrounding
//! application and threaded explicitly through the calls that use it. A
//! one-shot server registers the sending half of a fresh channel under an
//! assigned name; `connect` claims that half — at most once per name — and
//! the server's `accept` consumes the server for its single connection and
//! first message.

use vstd::prelude::*;
use core::marker::PhantomData;
use crate::errors::AcceptError;
use crate::errors::ConnectionError;
use crate::raw::RawSender;
use crate::raw::RawReceiver;
use crate::raw::raw_channel;
use crate::raw::sender_chan;
use crate::raw::receiver_chan;
use crate::channel::Payload;
use crate::channel::IpcSender;
use crate::channel::IpcReceiver;

verus! {

/// One entry of the name space: an assigned name, and the sending half
/// still waiting to be claimed — `None` once a connection took it.
pub struct Slot {
    pub name: String,
    pub sender: Option<RawSender>,
}

/// The transport's bootstrap name space.
pub struct Bootstrap {
    slots: Vec<Slot>,
}

/// The decimal digits of `n`.
pub open spec fn spec_digits(n: nat) -> Seq<char>
    decreases n,
{
    if n < 10 {
        seq![((48 + n) as u8) as char]
    } else {
        spec_digits(n / 10).push(((48 + n % 10) as u8) as char)
    }
}

/// Writes `n` in decimal.
fn fmt_index(n: u64) -> (s: String)
    ensures
        s@ == spec_digits(n as nat),
    decreases n,
{
    if n < 10 {
        let mut s = String::new();
        s.push((48 + n as u8) as char);
        s
    } else {
        let mut s = fmt_index(n / 10);
        s.push((48 + (n % 10) as u8) as char);
        s
    }
}

/// The first slot from `i` on whose name is `name`; `-1` when there is none.
pub open spec fn find_from(
    s: Seq<(Seq<char>, Option<RawSender>)>,
    name: Seq<char>,
    i: int,
) -> int
    decreases s.len() - i,
{
    if i < 0 || i >= s.len() {
        -1
    } else if s[i].0 == name {
        i
    } else {
        find_from(s, name, i + 1)
    }
}

impl View for Bootstrap {
    type V = Seq<(Seq<char>, Option<RawSender>)>;

    closed spec fn view(&self) -> Seq<(Seq<char>, Option<RawSender>)> {
        Seq::new(self.slots@.len(), |i: int| (self.slots@[i].name@, self.slots@[i].sender))
    }
}

impl Bootstrap {
    /// An empty name space.
    pub fn new() -> (r: Bootstrap)
        ensures
            r@ == Seq::<(Seq<char>, Option<RawSender>)>::empty(),
    {
        let r = Bootstrap { slots: Vec::new() };
        proof {
            assert(r@ =~= Seq::<(Seq<char>, Option<RawSender>)>::empty());
        }
        r
    }

    /// Registers a sending half under a fresh assigned name.
    fn register(&mut self, s: RawSender) -> (name: String)
        ensures
            final(self)@ == old(self)@.push((name@, Some(s))),
    {
        let name = fmt_index(self.slots.len() as u64);
        let name2 = name.clone();
        self.slots.push(Slot { name: name2, sender: Some(s) });
        proof {
            assert(self@ =~= old(self)@.push((name@, Some(s))));
        }
        name
    }

    /// Claims the slot of the first matching name, leaving the name in
    /// place so that a second claim of it fails.
    fn take(&mut self, name: &String) -> (r: Option<RawSender>)
        ensures
            ({
                let i = find_from(old(self)@, name@, 0);
                if i >= 0 && old(self)@[i].1 is Some {
                    &&& r == old(self)@[i].1
                    &&& final(self)@ == old(self)@.update(i, (old(self)@[i].0, None::<RawSender>))
                } else {
                    &&& r is None
                    &&& final(self)@ == old(self)@
                }
            }),
    {
        let n = self.slots.len();
        let mut i: usize = 0;
        while i < n
            invariant
                i <= n,
                n == self.slots@.len(),
                *self == *old(self),
                find_from(self@, name@, 0) == find_from(self@, name@, i as int),
            decreases n - i,
        {
            if self.slots[i].name.eq(name) {
                proof {
                    assert(find_from(self@, name@, i as int) == i);
                }
                let slot = self.slots.remove(i);
                let taken = slot.sender;
                self.slots.insert(i, Slot { name: slot.name, sender: None });
                proof {
                    assert(self@ =~= old(self)@.update(i as int,
                        (old(self)@[i as int].0, None::<RawSender>)));
                }
                return taken;
            }
            proof {
                assert(self@[i as int].0 != name@);
                assert(find_from(self@, name@, i as int) == find_from(self@, name@, i + 1));
            }
            i = i + 1;
        }
        proof {
            assert(find_from(self@, name@, n as int) == -1);
        }
        None
    }
}

/// Claiming a name leaves every later claim of that name empty-handed: the
/// slot keeps its position and name, but no longer holds a sender.
pub proof fn lemma_claim_is_final(s: Seq<(Seq<char>, Option<RawSender>)>, name: Seq<char>)
    requires
        find_from(s, name, 0) >= 0,
    ensures
        ({
            let i = find_from(s, name, 0);
            let t = s.update(i, (s[i].0, None::<RawSender>));
            find_from(t, name, 0) == i && t[i].1 is None
        }),
{
    let i = find_from(s, name, 0);
    lemma_find_from_range(s, name, 0);
    lemma_find_from_names(s, s.update(i, (s[i].0, None::<RawSender>)), name, 0);
}

/// `find_from` inspects names only.
proof fn lemma_find_from_names(
    s: Seq<(Seq<char>, Option<RawSender>)>,
    t: Seq<(Seq<char>, Option<RawSender>)>,
    name: Seq<char>,
    i: int,
)
    requires
        s.len() == t.len(),
        forall|j: int| 0 <= j < s.len() ==> (#[trigger] t[j]).0 == s[j].0,
    ensures
        find_from(t, name, i) == find_from(s, name, i),
    decreases s.len() - i,
{
    if 0 <= i < s.len() {
        lemma_find_from_names(s, t, name, i + 1);
    }
}

/// A found index lies in range and carries the name.
pub proof fn lemma_find_from_range(
    s: Seq<(Seq<char>, Option<RawSender>)>,
    name: Seq<char>,
    i: int,
)
    requires
        find_from(s, name, i) >= 0,
    ensures
        i <= find_from(s, name, i) < s.len(),
        s[find_from(s, name, i)].0 == name,
    decreases s.len() - i,
{
    if 0 <= i < s.len() && s[i].0 != name {
        lemma_find_from_range(s, name, i + 1);
    }
}

/// An ephemeral bootstrap endpoint: accepts exactly one connection and its
/// first message.
pub struct IpcOneShotServer<T> {
    raw: RawReceiver,
    phantom: PhantomData<T>,
}

impl<T: Payload> IpcOneShotServer<T> {
    /// The identity of the raw channel this server listens on.
    pub closed spec fn chan(&self) -> int {
        receiver_chan(self.raw)
    }

    /// Allocates a listening endpoint and registers its sending half in the
    /// name space under a fresh name, which is returned for the caller to
    /// publish out of band.
    pub fn new(boot: &mut Bootstrap) -> (r: Result<(IpcOneShotServer<T>, String), ConnectionError>)
        ensures
            r matches Ok(p) && ({
                let e = final(boot)@.last();
                &&& final(boot)@ == old(boot)@.push(e)
                &&& e.0 == p.1@
                &&& e.1 matches Some(tx) && sender_chan(tx) == p.0.chan()
            }),
    {
        let (tx, rx) = raw_channel();
        let ghost gtx = tx;
        let name = boot.register(tx);
        let server = IpcOneShotServer { raw: rx, phantom: PhantomData };
        proof {
            assert(boot@.last() == (name@, Some(gtx)));
        }
        Ok((server, name))
    }

    /// Consumes the server, blocks for its single connection's first
    /// message, and returns a receiver for all subsequent traffic on the
    /// now-established channel together with the first decoded value. The
    /// message is decoded exactly as [`crate::channel::decode_payload`] says;
    /// its content
    /// depends on the connecting peer.
    pub fn accept(self) -> (r: Result<(IpcReceiver<T>, T), AcceptError>)
        ensures
            r matches Ok(p) ==> p.0.chan() == self.chan(),
    {
        let chan_receiver: IpcReceiver<T> = IpcReceiver::from_raw(self.raw);
        match chan_receiver.recv() {
            Ok(x) => Ok((chan_receiver, x)),
            Err(crate::errors::RecvError::Disconnected) => Err(AcceptError::Accept),
            Err(e) => Err(AcceptError::FirstMessage(e)),
        }
    }
}

impl<T: Payload> IpcSender<T> {
    /// Resolves a published bootstrap name into a usable sender: succeeds
    /// exactly when the name is registered and not yet claimed, and claims
    /// it, so that a later connection attempt to the same name fails.
    pub fn connect(boot: &mut Bootstrap, name: String) -> (r: Result<IpcSender<T>, ConnectionError>)
        ensures
            ({
                let i = find_from(old(boot)@, name@, 0);
                if i >= 0 && old(boot)@[i].1 is Some {
                    &&& r matches Ok(s) && old(boot)@[i].1 matches Some(tx) && s.chan()
                        == sender_chan(tx)
                    &&& final(boot)@ == old(boot)@.update(i, (old(boot)@[i].0, None::<RawSender>))
                } else {
                    &&& r is Err
                    &&& r == Err::<IpcSender<T>, ConnectionError>(ConnectionError::NameNotFound)
                    &&& final(boot)@ == old(boot)@
                }
            }),
    {
        match boot.take(&name) {
            Some(tx) => Ok(IpcSender::from_raw(tx)),
            None => Err(ConnectionError::NameNotFound),
        }
    }
}

} // verus!
