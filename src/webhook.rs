use vstd::prelude::*;

verus! {

/// A chat webhook message.
pub struct Webhook {
    content: String,
    username: String,
    avatar_url: Option<String>,
}

impl Webhook {
    pub closed spec fn content_view(&self) -> Seq<char> {
        self.content@
    }

    pub closed spec fn username_view(&self) -> Seq<char> {
        self.username@
    }

    pub closed spec fn avatar_view(&self) -> Option<Seq<char>> {
        match self.avatar_url {
            Some(a) => Some(a@),
            None => None,
        }
    }

    pub fn new(content: &str, username: &str, avatar_url: Option<&str>) -> (r: Self)
        ensures
            r.content_view() == content@,
            r.username_view() == username@,
            r.avatar_view() == (match avatar_url {
                Some(a) => Some(a@),
                None => None::<Seq<char>>,
            }),
    {
        let avatar_url = match avatar_url {
            Some(a) => Some(a.to_string()),
            None => None,
        };
        Webhook { content: content.to_string(), username: username.to_string(), avatar_url }
    }

    pub fn content(&self) -> (r: &str)
        ensures
            r@ == self.content_view(),
    {
        self.content.as_str()
    }

    pub fn username(&self) -> (r: &str)
        ensures
            r@ == self.username_view(),
    {
        self.username.as_str()
    }

    pub fn avatar_url(&self) -> (r: Option<&str>)
        ensures
            match r {
                Some(a) => self.avatar_view() == Some(a@),
                None => self.avatar_view() is None,
            },
    {
        match &self.avatar_url {
            Some(a) => Some(a.as_str()),
            None => None,
        }
    }
}

} // verus!
