//! The command queue of a shard.
use std::collections::VecDeque;
use vstd::prelude::*;

verus! {

/// Something for a shard to do.
#[derive(Debug, PartialEq)]
pub enum ShardCommand {
    Deliver { client_id: String, topic_name: String, payload: Vec<u8> },
    DisconnectSlowConsumer { client_id: String },
}

/// What a `ShardCommand` stands for.
pub enum CommandView {
    Deliver { client_id: Seq<char>, topic_name: Seq<char>, payload: Seq<u8> },
    DisconnectSlowConsumer { client_id: Seq<char> },
}

impl DeepView for ShardCommand {
    type V = CommandView;

    open spec fn deep_view(&self) -> CommandView {
        match *self {
            ShardCommand::Deliver { client_id, topic_name, payload } => CommandView::Deliver {
                client_id: client_id@,
                topic_name: topic_name@,
                payload: payload@,
            },
            ShardCommand::DisconnectSlowConsumer { client_id } => {
                CommandView::DisconnectSlowConsumer { client_id: client_id@ }
            },
        }
    }
}

/// A shard.
pub struct ShardRuntime {
    id: usize,
    commands: VecDeque<ShardCommand>,
}

impl ShardRuntime {
    /// The number of the shard.
    pub closed spec fn number(&self) -> usize {
        self.id
    }

    /// What the shard is to do, in order.
    pub closed spec fn queue(&self) -> Seq<CommandView> {
        self.commands.deep_view()
    }

    /// A shard with nothing to do.
    pub fn new(id: usize) -> (result: Self)
        ensures
            result.number() == id,
            result.queue() == Seq::<CommandView>::empty(),
    {
        let result: ShardRuntime = ShardRuntime { id, commands: VecDeque::new() };
        assert(result.queue() =~= Seq::<CommandView>::empty());
        result
    }

    /// The number of the shard.
    pub fn id(&self) -> (result: usize)
        ensures
            result == self.number(),
    {
        self.id
    }

    /// Lets the shard deliver a publication.
    pub fn enqueue_delivery(&mut self, client_id: &str, topic_name: &str, payload: Vec<u8>)
        ensures
            final(self).number() == old(self).number(),
            final(self).queue() == old(self).queue().push(
                CommandView::Deliver {
                    client_id: client_id@,
                    topic_name: topic_name@,
                    payload: payload@,
                },
            ),
    {
        let ghost before = self.queue();
        let command: ShardCommand = ShardCommand::Deliver {
            client_id: client_id.to_owned(),
            topic_name: topic_name.to_owned(),
            payload,
        };
        let ghost view = command.deep_view();
        self.commands.push_back(command);
        assert(self.queue() =~= before.push(view));
    }

    /// How much the shard is to do.
    pub fn queue_len(&self) -> (result: usize)
        ensures
            result == self.queue().len(),
    {
        self.commands.len()
    }

    /// Takes all that the shard is to do, in order.
    pub fn drain_commands(&mut self) -> (result: Vec<ShardCommand>)
        ensures
            final(self).number() == old(self).number(),
            final(self).queue() == Seq::<CommandView>::empty(),
            result.deep_view() == old(self).queue(),
    {
        let ghost all = self.queue();
        let mut result: Vec<ShardCommand> = Vec::new();
        proof {
            assert(result.deep_view() =~= Seq::<CommandView>::empty());
            assert(result.deep_view() + self.queue() =~= all);
        }
        while self.commands.len() > 0
            invariant
                self.id == old(self).id,
                result.deep_view() + self.queue() == all,
            decreases self.commands@.len(),
        {
            let ghost before = self.queue();
            let ghost done = result.deep_view();
            if let Some(command) = self.commands.pop_front() {
                let ghost view = command.deep_view();
                result.push(command);
                proof {
                    assert(view == before[0]);
                    assert(self.queue() =~= before.drop_first());
                    assert(result.deep_view() =~= done.push(view));
                    assert(done.push(view) + before.drop_first() =~= done + before);
                }
            }
        }
        proof {
            assert(self.queue() =~= Seq::<CommandView>::empty());
            assert(result.deep_view() + Seq::<CommandView>::empty() =~= result.deep_view());
        }
        result
    }
}

} // verus!
