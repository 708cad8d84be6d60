use vstd::prelude::*;

verus! {

/// A request to inject a fault into raft log writing.
#[derive(Clone, Debug)]
pub struct InjectErrorReq {
    /// The fault; only `discard_log` is known.
    pub scene: String,
    /// How many later batch writes to drop.
    pub times: u64,
}

/// The faults that can be injected.
#[derive(Clone, Copy, Debug, PartialEq, Eq)]
pub enum InjectScene {
    /// Drop the next batch writes of the raft log.
    DiscardLog { times: u64 },
}

impl InjectErrorReq {
    /// The fault that the request names, or `None` for an unknown scene.
    pub fn scene_of(&self) -> (r: Option<InjectScene>)
        ensures
            self.scene@ == "discard_log"@ ==> r == Some(InjectScene::DiscardLog { times: self.times }),
            self.scene@ != "discard_log"@ ==> r is None,
    {
        let known = String::from_str("discard_log");
        if self.scene == known {
            Some(InjectScene::DiscardLog { times: self.times })
        } else {
            None
        }
    }
}

} // verus!
