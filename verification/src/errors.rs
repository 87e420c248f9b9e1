//! The compiler's error taxonomy. The first error aborts compilation.
use vstd::prelude::*;

use crate::strutil::push_char;
use crate::token::Token;

verus! {

/// No lexical rule matches at the given byte offset.
#[derive(Debug, PartialEq, Eq, Structural)]
pub struct LexError {
    pub pos: usize,
}

/// What the parser was looking for when it stopped.
#[derive(Debug, PartialEq, Eq)]
pub enum ExpectedItem {
    Tok(Token),
    Primary,
    Identifier,
    TypeKeyword,
    ArraySize,
    ArgumentSeparator,
}

/// Token mismatch or premature end of input. `got` is `None` when the
/// input ended where a token was required.
#[derive(Debug, PartialEq, Eq)]
pub struct ParseError {
    pub pos: usize,
    pub expected: ExpectedItem,
    pub got: Option<Token>,
}

/// A violation of the typing rules.
#[derive(Debug, PartialEq, Eq, Structural)]
pub enum TypeErrorKind {
    UndefinedVariable,
    UndefinedFunction,
    ArityMismatch,
    ArgumentTypeMismatch,
    ReturnTypeMismatch,
    PointerPlusPointer,
    DereferenceNonPointer,
    ArrayAsLValueTarget,
    DuplicateLocal,
}

/// A failure during code generation.
#[derive(Debug, PartialEq, Eq, Structural)]
pub enum CodegenErrorKind {
    /// An expression other than a variable or a dereference stood where a
    /// memory location was required.
    InvalidLValueForm,
    /// A function definition or call involves more than six parameters.
    UnsupportedParameterCount,
    /// A declared frame or a measured type passes the generator's size
    /// bound.
    FrameTooLarge,
    /// The control-flow label counter cannot cover the program.
    TooManyLabels,
}

/// Any diagnostic of the compilation pipeline.
#[derive(Debug, PartialEq, Eq)]
pub enum CompileError {
    Lex(LexError),
    Parse(ParseError),
    Typing(TypeErrorKind),
    Codegen(CodegenErrorKind),
}


impl CompileError {
    /// The byte offset a diagnostic points at: the offending position for
    /// lexical and syntactic errors, the start of the source otherwise.
    pub fn position(&self) -> (r: usize)
        ensures
            ({
                match self {
                    CompileError::Lex(l) => r == l.pos,
                    CompileError::Parse(p) => r == p.pos,
                    _ => r == 0,
                }
            }),
    {
        match self {
            CompileError::Lex(l) => l.pos,
            CompileError::Parse(p) => p.pos,
            CompileError::Typing(_) => 0,
            CompileError::Codegen(_) => 0,
        }
    }

    /// A short description of what went wrong.
    pub fn message(&self) -> (r: String)
        ensures
            ({
                match self {
                    CompileError::Lex(_) => r@ == "no token rule matches here"@,
                    CompileError::Parse(_) => r@ == "the parser expected something else here"@,
                    CompileError::Typing(_) => r@ == "the typing rules reject this program"@,
                    CompileError::Codegen(_) => r@
                        == "the code generator cannot lower this program"@,
                }
            }),
    {
        match self {
            CompileError::Lex(_) => String::from_str("no token rule matches here"),
            CompileError::Parse(_) => String::from_str("the parser expected something else here"),
            CompileError::Typing(_) => String::from_str("the typing rules reject this program"),
            CompileError::Codegen(_) => String::from_str(
                "the code generator cannot lower this program",
            ),
        }
    }
}

/// `n` spaces.
pub open spec fn spec_spaces(n: int) -> Seq<char>
    decreases n,
{
    if n <= 0 {
        Seq::empty()
    } else {
        spec_spaces(n - 1).push(' ')
    }
}

/// The diagnostic layout: the source text, then a caret under the
/// offending byte offset, then the message.
pub fn render_diagnostic(source: &Vec<char>, pos: usize, message: &String) -> (r: String)
    ensures
        r@ == source@ + "\n"@ + spec_spaces(pos as int) + "^"@ + message@,
{
    let mut s = String::new();
    proof {
        assert(s@ =~= Seq::<char>::empty());
        assert(source@.take(0) =~= Seq::<char>::empty());
        assert(Seq::<char>::empty() + source@.take(0) =~= s@);
    }
    let n = source.len();
    for i in 0..n
        invariant
            n == source@.len(),
            s@ == source@.take(i as int),
    {
        push_char(&mut s, source[i]);
        proof {
            assert(source@.take(i as int + 1) =~= source@.take(i as int).push(source@[i as int]));
        }
    }
    proof {
        assert(source@.take(n as int) =~= source@);
    }
    s.append("\n");
    let mut k: usize = 0;
    while k < pos
        invariant
            k <= pos,
            s@ == source@ + "\n"@ + spec_spaces(k as int),
        decreases pos - k,
    {
        push_char(&mut s, ' ');
        k = k + 1;
    }
    proof {
        assert(s@ =~= source@ + "\n"@ + spec_spaces(pos as int));
    }
    s.append("^");
    s.append(message.as_str());
    s
}

} // verus!
