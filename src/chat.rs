use vstd::prelude::*;

verus! {

/// A chat message as a mathematical value.
pub struct ChatView {
    pub channel: Seq<char>,
    pub steam_id: Seq<char>,
    pub name: Seq<char>,
    pub message: Seq<char>,
}

/// A chat message that the server pushed on the connection.
#[derive(Clone, Debug)]
pub struct Chat {
    channel: String,
    steam_id: String,
    name: String,
    message: String,
}

impl View for Chat {
    type V = ChatView;

    closed spec fn view(&self) -> ChatView {
        ChatView {
            channel: self.channel@,
            steam_id: self.steam_id@,
            name: self.name@,
            message: self.message@,
        }
    }
}

impl Chat {
    pub fn new(channel: String, steam_id: String, name: String, message: String) -> (r: Chat)
        ensures
            r@ == (ChatView {
                channel: channel@,
                steam_id: steam_id@,
                name: name@,
                message: message@,
            }),
    {
        Chat { channel: channel, steam_id: steam_id, name: name, message: message }
    }

    pub fn channel(&self) -> (r: &str)
        ensures
            r@ == self@.channel,
    {
        self.channel.as_str()
    }

    pub fn steam_id(&self) -> (r: &str)
        ensures
            r@ == self@.steam_id,
    {
        self.steam_id.as_str()
    }

    pub fn name(&self) -> (r: &str)
        ensures
            r@ == self@.name,
    {
        self.name.as_str()
    }

    pub fn message(&self) -> (r: &str)
        ensures
            r@ == self@.message,
    {
        self.message.as_str()
    }
}

} // verus!
