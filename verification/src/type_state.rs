//! Type-state: states as type parameters, so that only valid transitions
//! exist as methods.
use vstd::prelude::*;
use vstd::string::*;
use std::marker::PhantomData;

verus! {

/// The locked state of a [`Door`].
pub struct Locked;
/// The unlocked state of a [`Door`].
pub struct Unlocked;

/// A named door whose lock state is part of its type.
pub struct Door<State> {
    name: String,
    _state: PhantomData<State>,
}

impl<State> Door<State> {
    /// The door's name.
    pub closed spec fn name_view(&self) -> Seq<char> {
        self.name@
    }
}

impl Door<Locked> {
    /// A new, locked door.
    pub fn new(name: &str) -> (d: Self)
        ensures
            d.name_view() == name@,
    {
        Door { name: String::from_str(name), _state: PhantomData }
    }

    /// Unlocks the door.
    pub fn unlock(self) -> (d: Door<Unlocked>)
        ensures
            d.name_view() == self.name_view(),
    {
        Door { name: self.name, _state: PhantomData }
    }
}

impl Door<Unlocked> {
    /// Opens the door: `"<name> is open!"`.
    pub fn open(&self) -> (s: String)
        ensures
            s@ == self.name_view() + " is open!"@,
    {
        let mut s = self.name.clone();
        s.append(" is open!");
        s
    }

    /// Locks the door again.
    pub fn lock(self) -> (d: Door<Locked>)
        ensures
            d.name_view() == self.name_view(),
    {
        Door { name: self.name, _state: PhantomData }
    }
}

/// No email given yet.
pub struct NoEmail;
/// An email has been given.
pub struct HasEmail;
/// No name given yet.
pub struct NoName;
/// A name has been given.
pub struct HasName;

/// A user builder that can only `build` once both fields are set.
pub struct UserBuilder<E, N> {
    email: Option<String>,
    name: Option<String>,
    _email_state: PhantomData<E>,
    _name_state: PhantomData<N>,
}

/// The built user.
#[derive(Debug, PartialEq)]
pub struct User {
    pub email: String,
    pub name: String,
}

/// The text of an optional string.
pub open spec fn opt_text(o: Option<String>) -> Option<Seq<char>> {
    match o {
        Some(s) => Some(s@),
        None => None,
    }
}

impl<E, N> UserBuilder<E, N> {
    /// The email given so far.
    pub closed spec fn email_view(&self) -> Option<Seq<char>> {
        opt_text(self.email)
    }

    /// The name given so far.
    pub closed spec fn name_view(&self) -> Option<Seq<char>> {
        opt_text(self.name)
    }
}

impl UserBuilder<NoEmail, NoName> {
    /// An empty builder.
    pub fn new() -> (b: Self)
        ensures
            b.email_view() is None,
            b.name_view() is None,
    {
        UserBuilder { email: None, name: None, _email_state: PhantomData, _name_state: PhantomData }
    }
}

impl Default for UserBuilder<NoEmail, NoName> {
    fn default() -> (b: Self)
        ensures
            b.email_view() is None,
            b.name_view() is None,
    {
        UserBuilder::new()
    }
}

impl<N> UserBuilder<NoEmail, N> {
    /// Sets the email (possible only once).
    pub fn email(self, email: &str) -> (b: UserBuilder<HasEmail, N>)
        ensures
            b.email_view() == Some(email@),
            b.name_view() == self.name_view(),
    {
        UserBuilder { email: Some(String::from_str(email)), name: self.name, _email_state: PhantomData, _name_state: PhantomData }
    }
}

impl<E> UserBuilder<E, NoName> {
    /// Sets the name (possible only once).
    pub fn name(self, name: &str) -> (b: UserBuilder<E, HasName>)
        ensures
            b.email_view() == self.email_view(),
            b.name_view() == Some(name@),
    {
        UserBuilder { email: self.email, name: Some(String::from_str(name)), _email_state: PhantomData, _name_state: PhantomData }
    }
}

impl UserBuilder<HasEmail, HasName> {
    /// The user with the email and name given.
    pub fn build(self) -> (u: User)
        requires
            self.email_view() is Some,
            self.name_view() is Some,
        ensures
            Some(u.email@) == self.email_view(),
            Some(u.name@) == self.name_view(),
    {
        let email = match self.email { Some(e) => e, None => String::new() };
        let name = match self.name { Some(n) => n, None => String::new() };
        User { email, name }
    }
}

/// A request not yet sent.
pub struct Idle;
/// A request sent and awaiting its response.
pub struct Pending;
/// A request with its response.
pub struct Complete;

/// An HTTP-like request whose phase is part of its type.
pub struct Request<State> {
    url: String,
    body: Option<String>,
    response: Option<String>,
    _state: PhantomData<State>,
}

impl<State> Request<State> {
    /// The target URL.
    pub closed spec fn url_view(&self) -> Seq<char> {
        self.url@
    }

    /// The body, if set.
    pub closed spec fn body_view(&self) -> Option<Seq<char>> {
        opt_text(self.body)
    }

    /// The response, once received.
    pub closed spec fn response_view(&self) -> Option<Seq<char>> {
        opt_text(self.response)
    }
}

impl Request<Idle> {
    /// A request to `url` with no body.
    pub fn new(url: &str) -> (r: Self)
        ensures
            r.url_view() == url@,
            r.body_view() is None,
            r.response_view() is None,
    {
        Request { url: String::from_str(url), body: None, response: None, _state: PhantomData }
    }

    /// Sets the body.
    pub fn with_body(self, body: &str) -> (r: Self)
        ensures
            r.url_view() == self.url_view(),
            r.body_view() == Some(body@),
            r.response_view() == self.response_view(),
    {
        let mut r = self;
        r.body = Some(String::from_str(body));
        r
    }

    /// Sends the request.
    pub fn send(self) -> (r: Request<Pending>)
        ensures
            r.url_view() == self.url_view(),
            r.body_view() == self.body_view(),
            r.response_view() is None,
    {
        Request { url: self.url, body: self.body, response: None, _state: PhantomData }
    }
}

impl Request<Pending> {
    /// Records the response.
    pub fn receive(self, response: &str) -> (r: Request<Complete>)
        ensures
            r.url_view() == self.url_view(),
            r.body_view() == self.body_view(),
            r.response_view() == Some(response@),
    {
        Request { url: self.url, body: self.body, response: Some(String::from_str(response)), _state: PhantomData }
    }
}

impl Request<Complete> {
    /// The response text.
    pub fn response(&self) -> (s: &str)
        requires
            self.response_view() is Some,
        ensures
            Some(s@) == self.response_view(),
    {
        match &self.response {
            Some(r) => r.as_str(),
            None => "",
        }
    }

    /// The target URL.
    pub fn url(&self) -> (s: &str)
        ensures
            s@ == self.url_view(),
    {
        self.url.as_str()
    }
}

} // verus!
