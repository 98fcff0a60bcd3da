use vstd::prelude::*;

verus! {

/// The name of a single peer.
#[derive(Clone, Debug, PartialEq, Eq)]
pub struct UserId(pub String);

/// The name of a group of peers.
#[derive(Clone, Debug, PartialEq, Eq)]
pub struct GroupId(pub String);

/// Whom an outbound record is addressed to.
#[derive(Clone, Debug, PartialEq, Eq)]
pub enum Recipient {
    User(UserId),
    Group(GroupId),
}

/// The abstract content of a `Recipient`.
pub enum RecipientModel {
    User(Seq<char>),
    Group(Seq<char>),
}

impl View for Recipient {
    type V = RecipientModel;

    open spec fn view(&self) -> RecipientModel {
        match self {
            Recipient::User(u) => RecipientModel::User(u.0@),
            Recipient::Group(g) => RecipientModel::Group(g.0@),
        }
    }
}

/// An outbound record, as pushed to one destination's mailbox.
#[derive(Clone, Debug, PartialEq, Eq)]
pub struct Message {
    pub from: UserId,
    pub to: Recipient,
    pub text: Option<String>,
    pub media: Option<Vec<u8>>,
}

/// The abstract content of a `Message`.
pub struct MessageModel {
    pub from: Seq<char>,
    pub to: RecipientModel,
    pub text: Option<Seq<char>>,
    pub media: Option<Seq<u8>>,
}

impl View for Message {
    type V = MessageModel;

    open spec fn view(&self) -> MessageModel {
        MessageModel {
            from: self.from.0@,
            to: self.to@,
            text: match self.text {
                Some(t) => Some(t@),
                None => None,
            },
            media: match self.media {
                Some(m) => Some(m@),
                None => None,
            },
        }
    }
}

/// The text delivered for `body` sent by `from`: `from <from>: <body>` and a
/// line break.
pub open spec fn text_of(from: Seq<char>, body: Seq<char>) -> Seq<char> {
    seq!['f', 'r', 'o', 'm', ' '] + from + seq![':', ' '] + body + seq!['\n']
}

/// The record that carries `body` from `from` to the single peer `to`.
pub open spec fn direct_message(from: Seq<char>, to: Seq<char>, body: Seq<char>) -> MessageModel {
    MessageModel {
        from,
        to: RecipientModel::User(to),
        text: Some(text_of(from, body)),
        media: None,
    }
}

/// Formats the delivered text for `body` sent by `from`.
pub fn format_text(from: &str, body: &str) -> (r: String)
    ensures
        r@ == text_of(from@, body@),
{
    let mut t = String::from_str("from ");
    t.append(from);
    t.append(": ");
    t.append(body);
    t.append("\n");
    proof {
        reveal_strlit("from ");
        reveal_strlit(": ");
        reveal_strlit("\n");
        assert(t@ =~= text_of(from@, body@));
    }
    t
}

impl Message {
    /// The record that carries `body` from `from` to the single peer `to`.
    pub fn direct(from: &String, to: &String, body: &String) -> (r: Message)
        ensures
            r@ == direct_message(from@, to@, body@),
    {
        let text = format_text(from.as_str(), body.as_str());
        Message {
            from: UserId(from.clone()),
            to: Recipient::User(UserId(to.clone())),
            text: Some(text),
            media: None,
        }
    }
}

} // verus!
