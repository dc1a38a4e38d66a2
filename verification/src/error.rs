//! Errors with what caused them and where they were raised.
use crate::text::{self, cat};
use vstd::prelude::*;
use vstd::string::StringExecFns;

verus! {

broadcast use {vstd::seq::group_seq_axioms, vstd::seq_lib::group_seq_properties};

pub type Resultx<T> = Result<T, Errx>;

/// A captured stack, as the standard library has it.
#[verifier::external_type_specification]
#[verifier::external_body]
pub struct ExBacktrace(std::backtrace::Backtrace);

/// `Backtrace::force_capture`: the stack at the time of the call. What it holds
/// depends on the machine, so nothing is said of it.
#[verifier::external_body]
fn captured() -> (stack: std::backtrace::Backtrace) {
    std::backtrace::Backtrace::force_capture()
}

/// An error of the operating system or of another program, in plain values: what
/// it says, what each error below it says, and its number where it has one.
#[derive(Debug)]
pub struct Fault {
    pub text: String,
    pub causes: Vec<String>,
    pub code: Option<i32>,
}

/// A fault over its texts.
pub struct FaultView {
    pub text: Seq<char>,
    pub causes: Seq<Seq<char>>,
    pub code: Option<i32>,
}

impl View for Fault {
    type V = FaultView;

    open spec fn view(&self) -> FaultView {
        FaultView { text: self.text@, causes: text::texts(self.causes@), code: self.code }
    }
}

impl Clone for Fault {
    fn clone(&self) -> (copy: Self)
        ensures
            copy@ == self@,
    {
        let copy = Fault {
            text: self.text.clone(),
            causes: text::copies(&self.causes),
            code: self.code,
        };
        copy
    }
}

impl FaultView {
    /// What the fault says, then what each error below it says.
    pub open spec fn chain(self) -> Seq<Seq<char>> {
        seq![self.text] + self.causes
    }
}

#[derive(Debug)]
pub enum Kindx {
    Any(String),
    Io(String),
}

/// A kind of error over its message.
pub enum KindxView {
    Any(Seq<char>),
    Io(Seq<char>),
}

impl View for Kindx {
    type V = KindxView;

    open spec fn view(&self) -> KindxView {
        match self {
            Kindx::Any(msg) => KindxView::Any(msg@),
            Kindx::Io(msg) => KindxView::Io(msg@),
        }
    }
}

impl Clone for Kindx {
    fn clone(&self) -> (copy: Self)
        ensures
            copy@ == self@,
    {
        match self {
            Kindx::Any(msg) => Kindx::Any(msg.clone()),
            Kindx::Io(msg) => Kindx::Io(msg.clone()),
        }
    }
}

impl KindxView {
    /// The kind in words.
    pub open spec fn words(self) -> Seq<char> {
        match self {
            KindxView::Any(msg) => "Any: "@ + msg,
            KindxView::Io(msg) => "IO: "@ + msg,
        }
    }
}

impl Kindx {
    pub fn any(msg: String) -> (knd: Kindx)
        ensures
            knd@ == KindxView::Any(msg@),
    {
        Kindx::Any(msg)
    }

    /// The kind in words.
    pub fn to_text(&self) -> (words: String)
        ensures
            words@ == self@.words(),
    {
        match self {
            Kindx::Any(msg) => cat("Any: ", msg.as_str()),
            Kindx::Io(msg) => cat("IO: ", msg.as_str()),
        }
    }
}

/// What an error was caused by.
#[derive(Debug)]
pub enum Cause {
    /// Another error of this library.
    Own(Errx),
    /// An error from outside it.
    Outside(Fault),
}

#[derive(Debug)]
pub struct Errx {
    pub knd: Kindx,
    pub src: Option<Box<Cause>>,
    pub bkt: Option<std::backtrace::Backtrace>,
}

/// An error over its texts: its kind, and what each error below it says.
pub struct ErrxView {
    pub knd: KindxView,
    pub below: Seq<Seq<char>>,
}

impl ErrxView {
    /// The error in words, which leave out what caused it.
    pub open spec fn words(self) -> Seq<char> {
        self.knd.words()
    }

    /// The error in words, then what each error below it says.
    pub open spec fn chain(self) -> Seq<Seq<char>> {
        seq![self.words()] + self.below
    }
}

/// An error of this kind with a fault of the outside below it.
pub open spec fn over(knd: KindxView, fault: FaultView) -> ErrxView {
    ErrxView { knd, below: fault.chain() }
}

/// An input or output error with the fault below it.
pub open spec fn io_error(fault: FaultView, msg: Seq<char>) -> ErrxView {
    over(KindxView::Io(msg), fault)
}

/// An error with nothing below it.
pub open spec fn plain_error(msg: Seq<char>) -> ErrxView {
    ErrxView { knd: KindxView::Any(msg), below: Seq::empty() }
}

impl View for Errx {
    type V = ErrxView;

    open spec fn view(&self) -> ErrxView {
        ErrxView { knd: self.knd@, below: self.below() }
    }
}

impl Cause {
    /// What the cause says, then what each error below it says.
    pub open spec fn chain(&self) -> Seq<Seq<char>>
        decreases self,
    {
        match self {
            Cause::Own(errx) => seq![errx.knd@.words()] + errx.below(),
            Cause::Outside(fault) => fault@.chain(),
        }
    }

    /// No error in the chain holds a stack.
    pub open spec fn untraced(&self) -> bool
        decreases self,
    {
        match self {
            Cause::Own(errx) => errx.bkt is None && errx.untraced_below(),
            Cause::Outside(_) => true,
        }
    }
}

impl Errx {
    /// What each error below this one says.
    pub open spec fn below(&self) -> Seq<Seq<char>>
        decreases self,
    {
        match self.src {
            Some(cause) => cause.chain(),
            None => Seq::empty(),
        }
    }

    /// No error below this one holds a stack.
    pub open spec fn untraced_below(&self) -> bool
        decreases self,
    {
        match self.src {
            Some(cause) => cause.untraced(),
            None => true,
        }
    }

    /// This error stands over `fault`, which is kept whole.
    pub open spec fn caused_by(&self, fault: Fault) -> bool {
        self.src matches Some(cause) && *cause == Cause::Outside(fault)
    }

    /// This error stands over `inner`, which is kept whole but for its stack.
    pub open spec fn put_over(&self, inner: Errx) -> bool {
        self.src matches Some(cause) && *cause == Cause::Own((Errx { bkt: None, ..inner }))
    }

    /// The stack is held once in the whole chain, by the outermost error.
    pub open spec fn traced(&self) -> bool {
        self.bkt is Some && self.untraced_below()
    }

    /// An error of kind `knd`, caused by `src` where there is a cause. A cause that
    /// is an error of this library hands its stack on, any other gets a new one.
    pub fn new(src: Option<Cause>, knd: Kindx) -> (errx: Self)
        ensures
            errx.knd == knd,
            match src {
                None => errx.src is None && errx@.below.len() == 0 && errx.traced(),
                Some(Cause::Outside(fault)) => {
                    &&& errx.caused_by(fault)
                    &&& errx@ == over(knd@, fault@)
                    &&& errx.traced()
                },
                Some(Cause::Own(inner)) => {
                    &&& errx.put_over(inner)
                    &&& errx@.below == inner@.chain()
                    &&& errx.bkt == inner.bkt
                    &&& inner.traced() ==> errx.traced()
                },
            },
    {
        match src {
            None => Errx { src: None, bkt: Some(captured()), knd },
            Some(Cause::Own(inner)) => inner.ctx(knd),
            Some(Cause::Outside(fault)) => Errx {
                src: Some(Box::new(Cause::Outside(fault))),
                bkt: Some(captured()),
                knd,
            },
        }
    }

    /// This error as the cause of one of kind `knd`, which takes its stack over.
    pub fn ctx(self, knd: Kindx) -> (errx: Self)
        ensures
            errx.knd == knd,
            errx.put_over(self),
            errx@.below == self@.chain(),
            errx.bkt == self.bkt,
            self.traced() ==> errx.traced(),
    {
        let mut inner = self;
        let bkt = inner.bkt.take();
        proof {
            assert(inner.untraced_below() == self.untraced_below());
            assert(inner.below() == self.below());
        }
        Errx { knd, src: Some(Box::new(Cause::Own(inner))), bkt }
    }

    pub fn of(knd: Kindx) -> (errx: Self)
        ensures
            errx@ == (ErrxView { knd: knd@, below: Seq::empty() }),
            errx.src is None,
            errx.traced(),
    {
        Self::new(None, knd)
    }

    pub fn e_of(src: Fault, knd: Kindx) -> (errx: Self)
        ensures
            errx@ == over(knd@, src@),
            errx.caused_by(src),
            errx.traced(),
    {
        Self::new(Some(Cause::Outside(src)), knd)
    }

    pub fn any(msg: String) -> (errx: Self)
        ensures
            errx@ == plain_error(msg@),
            errx.src is None,
            errx.traced(),
    {
        Self::new(None, Kindx::Any(msg))
    }

    pub fn e_any(src: Fault, msg: String) -> (errx: Self)
        ensures
            errx@ == over(KindxView::Any(msg@), src@),
            errx.caused_by(src),
            errx.traced(),
    {
        Self::new(Some(Cause::Outside(src)), Kindx::Any(msg))
    }

    pub fn e_io(src: Fault, msg: String) -> (errx: Self)
        ensures
            errx@ == io_error(src@, msg@),
            errx.caused_by(src),
            errx.traced(),
    {
        Self::new(Some(Cause::Outside(src)), Kindx::Io(msg))
    }

    /// What this error says, then what each error below it says.
    pub fn chain(&self) -> (chain: Vec<String>)
        ensures
            text::texts(chain@) == self@.chain(),
        decreases self,
    {
        let mut chain: Vec<String> = Vec::new();
        chain.push(self.to_text());
        proof {
            assert(text::texts(chain@) =~= seq![self@.words()]);
        }
        let mut below = match &self.src {
            None => Vec::new(),
            Some(cause) => match &**cause {
                Cause::Own(errx) => errx.chain(),
                Cause::Outside(fault) => fault.chain(),
            },
        };
        let ghost before = chain@;
        let ghost rest = below@;
        chain.append(&mut below);
        proof {
            assert(text::texts(chain@) =~= text::texts(before) + text::texts(rest));
        }
        chain
    }

    /// The error in words, which leave out what caused it.
    pub fn to_text(&self) -> (words: String)
        ensures
            words@ == self@.words(),
    {
        self.knd.to_text()
    }
}

impl Fault {
    /// What the fault says, then what each error below it says.
    pub fn chain(&self) -> (chain: Vec<String>)
        ensures
            text::texts(chain@) == self@.chain(),
    {
        let mut chain: Vec<String> = Vec::new();
        chain.push(self.text.clone());
        let mut i: usize = 0;
        proof {
            assert(text::texts(chain@) =~= seq![self.text@] + text::texts(self.causes@).take(0));
        }
        while i < self.causes.len()
            invariant
                i <= self.causes@.len(),
                text::texts(chain@) == seq![self.text@] + text::texts(self.causes@).take(i as int),
            decreases self.causes.len() - i,
        {
            let ghost before = text::texts(chain@);
            chain.push(self.causes[i].clone());
            proof {
                assert(text::texts(chain@) =~= before.push(self.causes@[i as int]@));
                assert(text::texts(chain@) =~= seq![self.text@] + text::texts(self.causes@).take(
                    i as int + 1,
                ));
            }
            i = i + 1;
        }
        proof {
            assert(text::texts(self.causes@).take(i as int) =~= text::texts(self.causes@));
        }
        chain
    }
}

impl From<Fault> for Errx {
    fn from(e: Fault) -> (errx: Self)
        ensures
            errx@ == io_error(e@, "IO operation failed"@),
            errx.caused_by(e),
            errx.traced(),
    {
        Errx::e_of(e, Kindx::Io("IO operation failed".to_owned()))
    }
}

impl vstd::std_specs::convert::FromSpecImpl<Fault> for Errx {
    open spec fn obeys_from_spec() -> bool {
        false
    }

    open spec fn from_spec(e: Fault) -> Errx {
        arbitrary()
    }
}

/// Whatever is put over an error says, after its own words, all that the error
/// said before.
pub proof fn law_context_keeps_the_chain(inner: ErrxView, knd: KindxView)
    ensures
        ({
            let outer = ErrxView { knd, below: inner.chain() };
            &&& outer.chain().len() == inner.chain().len() + 1
            &&& outer.chain()[0] == knd.words()
            &&& outer.chain().skip(1) == inner.chain()
        }),
{
    let outer = ErrxView { knd, below: inner.chain() };
    assert(outer.chain().skip(1) =~= inner.chain());
}

/// What is read off an error from outside is the context it was given, marked as input or
/// output, and then all that the outside said. An error of the navigator's own says one
/// thing.
pub proof fn law_what_an_error_says(fault: FaultView, msg: Seq<char>)
    ensures
        io_error(fault, msg).chain() == seq!["IO: "@ + msg, fault.text] + fault.causes,
        io_error(fault, msg).words() == "IO: "@ + msg,
        plain_error(msg).chain() == seq!["Any: "@ + msg],
        plain_error(msg).words() == "Any: "@ + msg,
{
    assert(io_error(fault, msg).chain() =~= seq!["IO: "@ + msg, fault.text] + fault.causes);
    assert(plain_error(msg).chain() =~= seq!["Any: "@ + msg]);
}

} // verus!
