use vstd::prelude::*;
use vstd::string::StringExecFns;

verus! {

/// Ghost image of an [`Error`]: the chain of context messages, innermost
/// first, and the optional OS error number at the root of the chain.
pub struct ErrorView {
    pub chain: Seq<Seq<char>>,
    pub source: Option<i32>,
}

#[derive(Debug)]
struct ErrorRepr {
    chain: Vec<String>,
    source: Option<i32>,
}

/// A lightweight error: an optional OS error number plus a chain of context
/// messages, innermost first. The payload is boxed so that `Result<T, Error>`
/// stays two words wide.
#[derive(Debug)]
pub struct Error(Box<ErrorRepr>);

impl View for Error {
    type V = ErrorView;

    closed spec fn view(&self) -> ErrorView {
        ErrorView { chain: self.0.chain.deep_view(), source: self.0.source }
    }
}

/// A value that can be turned into an [`Error`]: a bare message, an OS error
/// number, or an [`Error`] itself.
pub trait IntoError: Sized {
    spec fn spec_into_error(self) -> ErrorView;

    fn into_error(self) -> (r: Error)
        ensures
            r@ == self.spec_into_error(),
    ;
}

/// A value that can serve as one context message of an [`Error`].
pub trait IntoMsg: Sized {
    spec fn spec_msg(self) -> Seq<char>;

    fn into_msg(self) -> (r: String)
        ensures
            r@ == self.spec_msg(),
    ;
}

impl IntoMsg for &'static str {
    open spec fn spec_msg(self) -> Seq<char> {
        self@
    }

    fn into_msg(self) -> (r: String) {
        self.to_owned()
    }
}

impl IntoMsg for String {
    open spec fn spec_msg(self) -> Seq<char> {
        self@
    }

    fn into_msg(self) -> (r: String) {
        self
    }
}

impl Error {
    /// An error that carries one message and no OS error number.
    pub fn from_msg<M: IntoMsg>(msg: M) -> (r: Error)
        ensures
            r@.chain == seq![msg.spec_msg()],
            r@.source is None,
    {
        let mut chain: Vec<String> = Vec::new();
        chain.push(msg.into_msg());
        let r = Error(Box::new(ErrorRepr { chain, source: None }));
        proof {
            assert(r@.chain =~= seq![msg.spec_msg()]);
        }
        r
    }

    /// An error rooted in an OS error number, with an empty context chain.
    pub fn from_errno(errno: i32) -> (r: Error)
        ensures
            r@.chain == Seq::<Seq<char>>::empty(),
            r@.source == Some(errno),
    {
        let r = Error(Box::new(ErrorRepr { chain: Vec::new(), source: Some(errno) }));
        proof {
            assert(r@.chain =~= Seq::<Seq<char>>::empty());
        }
        r
    }

    /// The same error with one more context message pushed onto the chain.
    pub fn push_context<M: IntoMsg>(self, msg: M) -> (r: Error)
        ensures
            r@.chain == self@.chain.push(msg.spec_msg()),
            r@.source == self@.source,
    {
        let ghost pre = self@;
        let Error(repr) = self;
        let ErrorRepr { mut chain, source } = *repr;
        chain.push(msg.into_msg());
        let r = Error(Box::new(ErrorRepr { chain, source }));
        proof {
            assert(r@.chain =~= pre.chain.push(msg.spec_msg()));
        }
        r
    }
}

impl IntoError for Error {
    open spec fn spec_into_error(self) -> ErrorView {
        self@
    }

    fn into_error(self) -> (r: Error) {
        self
    }
}

impl IntoError for &'static str {
    open spec fn spec_into_error(self) -> ErrorView {
        ErrorView { chain: seq![self@], source: None }
    }

    fn into_error(self) -> (r: Error) {
        Error::from_msg(self)
    }
}

impl IntoError for String {
    open spec fn spec_into_error(self) -> ErrorView {
        ErrorView { chain: seq![self@], source: None }
    }

    fn into_error(self) -> (r: Error) {
        Error::from_msg(self)
    }
}

impl IntoError for i32 {
    open spec fn spec_into_error(self) -> ErrorView {
        ErrorView { chain: Seq::empty(), source: Some(self) }
    }

    fn into_error(self) -> (r: Error) {
        Error::from_errno(self)
    }
}

#[verifier::external_type_specification]
#[verifier::external_body]
pub struct ExIoError(std::io::Error);

/// Relies on `std::io::Error::from_raw_os_error`: builds the io error value
/// that stands for an OS error number.
#[verifier::external_body]
fn io_error_from_errno(errno: i32) -> std::io::Error {
    std::io::Error::from_raw_os_error(errno)
}

/// Relies on `ToString::to_string` through `std::io::Error`'s `Display`: the
/// OS description of the error ("No such file or directory (os error 2)").
/// The text depends on the platform's error tables, so nothing is stated of it.
#[verifier::external_body]
fn io_error_text(e: &std::io::Error) -> String {
    e.to_string()
}

/// The rendering of a context chain, outermost message first, each message
/// followed by `": "`. The chain is handed over already reversed, so the
/// recursion peels its first element.
pub open spec fn spec_render_chain(chain: Seq<Seq<char>>) -> Seq<char>
    decreases chain.len(),
{
    if chain.len() == 0 {
        Seq::empty()
    } else {
        chain.first() + ": "@ + spec_render_chain(chain.drop_first())
    }
}

/// The full message of an error without an OS error number: every context
/// message but the innermost, outermost first and `": "`-separated, then the
/// innermost message with no separator after it.
pub open spec fn spec_message_of(chain: Seq<Seq<char>>) -> Seq<char> {
    if chain.len() == 0 {
        Seq::empty()
    } else {
        spec_render_chain(chain.drop_first().reverse()) + chain.first()
    }
}

proof fn lemma_render_chain_push(a: Seq<Seq<char>>, x: Seq<char>)
    ensures
        spec_render_chain(a.push(x)) == spec_render_chain(a) + x + ": "@,
    decreases a.len(),
{
    if a.len() == 0 {
        assert(a.push(x).drop_first() =~= Seq::<Seq<char>>::empty());
        assert(a.push(x).first() == x);
        assert(spec_render_chain(a.push(x)) == x + ": "@ + spec_render_chain(
            a.push(x).drop_first(),
        ));
        assert(spec_render_chain(a.push(x)) =~= spec_render_chain(a) + x + ": "@);
    } else {
        lemma_render_chain_push(a.drop_first(), x);
        assert(a.push(x).drop_first() =~= a.drop_first().push(x));
        assert(a.push(x).first() == a.first());
        assert(spec_render_chain(a.push(x)) == a.first() + ": "@ + spec_render_chain(
            a.drop_first().push(x),
        ));
        assert(spec_render_chain(a.push(x)) =~= spec_render_chain(a) + x + ": "@);
    }
}

impl Error {
    /// The displayable message of the error: the context chain, outermost
    /// message first, separated by `": "`, ending with the OS error
    /// description when an OS error number is present.
    pub fn message(&self) -> (r: String)
        ensures
            self@.source is None ==> r@ == spec_message_of(self@.chain),
            self@.source is Some ==> spec_render_chain(self@.chain.reverse()).is_prefix_of(r@),
    {
        let n = self.0.chain.len();
        let stop: usize = if self.0.source.is_some() {
            0
        } else {
            1
        };
        let mut s = String::new();
        let mut i: usize = n;
        while i > stop
            invariant
                stop <= n ==> stop <= i <= n,
                stop > n ==> i == n,
                stop <= 1,
                n == self@.chain.len(),
                s@ == spec_render_chain(self@.chain.subrange(i as int, n as int).reverse()),
            decreases i,
        {
            i = i - 1;
            s.append(self.0.chain[i].as_str());
            s.append(": ");
            proof {
                let c = self@.chain;
                assert(c.subrange(i as int, n as int).reverse() =~= c.subrange(
                    i + 1,
                    n as int,
                ).reverse().push(c[i as int]));
                lemma_render_chain_push(c.subrange(i + 1, n as int).reverse(), c[i as int]);
            }
        }
        match &self.0.source {
            Some(errno) => {
                let io_err = io_error_from_errno(*errno);
                let text = io_error_text(&io_err);
                s.append(text.as_str());
                proof {
                    assert(self@.chain.subrange(0, n as int) =~= self@.chain);
                    assert(spec_render_chain(self@.chain.reverse()).is_prefix_of(s@));
                }
                s
            },
            None => {
                if n > 0 {
                    s.append(self.0.chain[0].as_str());
                    proof {
                        assert(self@.chain.subrange(1, n as int) =~= self@.chain.drop_first());
                    }
                }
                proof {
                    if n == 0 {
                        assert(self@.chain.subrange(0, 0).reverse() =~= Seq::<Seq<char>>::empty());
                    }
                }
                s
            },
        }
    }
}

// The `From` impls serve callers that convert with `.into()`. The exact
// `Error` value a conversion builds holds a heap `Vec`, which a spec cannot
// construct, so `obeys_from_spec` stays false and the contracted
// constructors `from_msg` and `from_errno` carry the specification instead.
impl From<&'static str> for Error {
    fn from(msg: &'static str) -> Self {
        Error::from_msg(msg)
    }
}

impl vstd::std_specs::convert::FromSpecImpl<&'static str> for Error {
    open spec fn obeys_from_spec() -> bool {
        false
    }

    open spec fn from_spec(v: &'static str) -> Error {
        arbitrary()
    }
}

impl From<String> for Error {
    fn from(msg: String) -> Self {
        Error::from_msg(msg)
    }
}

impl vstd::std_specs::convert::FromSpecImpl<String> for Error {
    open spec fn obeys_from_spec() -> bool {
        false
    }

    open spec fn from_spec(v: String) -> Error {
        arbitrary()
    }
}

impl From<i32> for Error {
    fn from(errno: i32) -> Self {
        Error::from_errno(errno)
    }
}

impl vstd::std_specs::convert::FromSpecImpl<i32> for Error {
    open spec fn obeys_from_spec() -> bool {
        false
    }

    open spec fn from_spec(v: i32) -> Error {
        arbitrary()
    }
}

/// Wrap an error-like value with one more context message.
pub fn add_context<E: IntoError, M: IntoMsg>(error: E, msg: M) -> (r: Error)
    ensures
        r@.chain == error.spec_into_error().chain.push(msg.spec_msg()),
        r@.source == error.spec_into_error().source,
{
    error.into_error().push_context(msg)
}

/// Attach context messages to the error side of a `Result`.
pub trait Context<T>: Sized {
    spec fn spec_ok(self) -> Option<T>;

    spec fn spec_err(self) -> ErrorView;

    fn context<M: IntoMsg>(self, msg: M) -> (r: Result<T, Error>)
        ensures
            self.spec_ok() matches Some(v) ==> r matches Ok(rv) && rv == v,
            self.spec_ok() is None ==> (r matches Err(e) && e@.chain == self.spec_err().chain.push(
                msg.spec_msg(),
            ) && e@.source == self.spec_err().source),
    ;

    fn with_context<M: IntoMsg, F: FnOnce() -> M>(self, f: F) -> (r: Result<T, Error>)
        requires
            self.spec_ok() is None ==> call_requires(f, ()),
        ensures
            self.spec_ok() matches Some(v) ==> r matches Ok(rv) && rv == v,
            self.spec_ok() is None ==> (r matches Err(e) && (exists|m: Seq<char>|
                e@.chain == self.spec_err().chain.push(m)) && e@.source == self.spec_err().source),
    ;
}

impl<T, E: IntoError> Context<T> for Result<T, E> {
    open spec fn spec_ok(self) -> Option<T> {
        match self {
            Ok(v) => Some(v),
            Err(_) => None,
        }
    }

    open spec fn spec_err(self) -> ErrorView {
        match self {
            Ok(_) => ErrorView { chain: Seq::empty(), source: None },
            Err(e) => e.spec_into_error(),
        }
    }

    fn context<M: IntoMsg>(self, msg: M) -> (r: Result<T, Error>) {
        match self {
            Ok(v) => Ok(v),
            Err(e) => Err(add_context(e, msg)),
        }
    }

    fn with_context<M: IntoMsg, F: FnOnce() -> M>(self, f: F) -> (r: Result<T, Error>) {
        match self {
            Ok(v) => Ok(v),
            Err(e) => Err(add_context(e, f())),
        }
    }
}

} // verus!
