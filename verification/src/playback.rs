//! Playback-side types: the commands a consumer of the output channel
//! issues to the audio layer, and the queue that holds them.

use std::collections::VecDeque;
use vstd::prelude::*;

verus! {

/// One instruction to the audio layer.
#[derive(Debug, Clone)]
pub enum PlaybackCommand {
    Play(Vec<u8>),
    Pause,
    Stop,
    Resume,
}

/// Queues playback commands and remembers which sink, if any, is playing.
pub struct PlaybackManager {
    pub next_id: usize,
    pub command_queue: VecDeque<PlaybackCommand>,
    pub is_idle: bool,
    pub current_sink: Option<usize>,
}

impl PlaybackManager {
    pub fn new() -> (r: Self)
        ensures
            r.next_id == 0,
            r.command_queue@ == Seq::<PlaybackCommand>::empty(),
            r.is_idle,
            r.current_sink is None,
    {
        PlaybackManager {
            next_id: 0,
            command_queue: VecDeque::new(),
            is_idle: true,
            current_sink: None,
        }
    }

    /// Appends a command; commands are handed out in arrival order.
    pub fn enqueue(&mut self, command: PlaybackCommand)
        ensures
            final(self).command_queue@ == old(self).command_queue@.push(command),
            final(self).next_id == old(self).next_id,
            final(self).is_idle == old(self).is_idle,
            final(self).current_sink == old(self).current_sink,
    {
        self.command_queue.push_back(command);
    }

    /// Hands out the oldest queued command, if any.
    pub fn next_command(&mut self) -> (r: Option<PlaybackCommand>)
        ensures
            old(self).command_queue@.len() == 0 ==> {
                &&& r is None
                &&& final(self).command_queue@ == old(self).command_queue@
            },
            old(self).command_queue@.len() > 0 ==> {
                &&& r == Some(old(self).command_queue@[0])
                &&& final(self).command_queue@ == old(self).command_queue@.drop_first()
            },
            final(self).next_id == old(self).next_id,
            final(self).is_idle == old(self).is_idle,
            final(self).current_sink == old(self).current_sink,
    {
        self.command_queue.pop_front()
    }
}

} // verus!
