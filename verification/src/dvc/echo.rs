//! A channel that a client answers with the bytes it was sent, to see whether
//! dynamic channels work.

use vstd::prelude::*;
use vstd::slice::slice_to_vec;

use crate::bytes;
use crate::dvc::DvcHandler;
use crate::model;
use crate::model::Held;

verus! {

broadcast use model::lemma_views_push;

pub const CHANNEL_NAME: &'static str = "ECHO";

/// Is told whether what came back is what was sent.
pub trait EchoListener: Send {
    fn on_result(&mut self, matched: bool);
}

/// A listener is told whether they are.
pub open spec fn told<L: EchoListener + ?Sized>(l: &mut L, matched: bool) -> bool {
    call_ensures(L::on_result, (l, matched), ())
}

fn notify<L: EchoListener + ?Sized>(listener: &mut L, matched: bool)
    ensures
        exists|l: &mut L|
            &*l == &*old(listener) && &*final(l) == &*final(listener) && #[trigger] told(
                l,
                matched,
            ),
{
    listener.on_result(matched);
    assert(forall|l: &mut L| #[trigger]
        call_ensures(L::on_result, (l, matched), ()) ==> told(l, matched));
}

/// Sends its bytes once the channel is open, and compares the answer.
pub struct EchoHandler {
    payload: Vec<u8>,
    listener: Held<Box<dyn EchoListener>>,
}

impl EchoHandler {
    /// The bytes that are sent.
    pub closed spec fn payload(&self) -> Seq<u8> {
        self.payload@
    }

    /// The listener of the channel, as it is.
    pub closed spec fn listening(&self) -> &Box<dyn EchoListener> {
        &self.listener.value
    }

    pub fn new(payload: Vec<u8>, listener: Box<dyn EchoListener>) -> (h: Self)
        ensures
            h.payload() == payload@,
            h.listening() == &listener,
    {
        let held = Held { value: listener };
        Self { payload, listener: held }
    }

    /// Whether an answer is what was sent.
    pub fn matches(&self, data: &[u8]) -> (r: bool)
        ensures
            r == (data@ == self.payload()),
    {
        bytes::same(data, self.payload.as_slice())
    }
}

impl DvcHandler for EchoHandler {
    fn channel_name(&self) -> (name: &str)
        ensures
            name@ == CHANNEL_NAME@,
    {
        CHANNEL_NAME
    }

    fn on_open(&mut self) -> (r: Vec<Vec<u8>>)
        ensures
            final(self).payload() == old(self).payload(),
            final(self).listening() == old(self).listening(),
            model::views(r@) == seq![old(self).payload()],
    {
        let mut r: Vec<Vec<u8>> = Vec::new();
        r.push(slice_to_vec(self.payload.as_slice()));
        assert(model::views(r@) =~= seq![old(self).payload()]);
        r
    }

    fn on_data(&mut self, data: &[u8]) -> (r: Vec<Vec<u8>>)
        ensures
            final(self).payload() == old(self).payload(),
            r@.len() == 0,
            exists|l: &mut dyn EchoListener, matched: bool| #[trigger]
                told(l, matched) && matched == (data@ == old(self).payload()) && &*l
                    == &**old(self).listening() && &*final(l) == &**final(self).listening(),
    {
        let matched: bool = self.matches(data);
        notify(&mut *self.listener.value, matched);
        Vec::new()
    }
}

} // verus!
