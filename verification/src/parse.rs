//! Parsing a file for formatting: the parser is asked for a syntax tree,
//! tokens and comments, and its syntax errors become diagnostics. Errors
//! from which the syntax tree no longer represents the text refuse the
//! parse.

use vstd::prelude::*;
use vstd::string::StringSliceAdditionalSpecFns;

use dprint_swc_ext::swc::ast::Program;
use dprint_swc_ext::swc::common::comments::SingleThreadedComments;
use dprint_swc_ext::swc::common::comments::SingleThreadedCommentsMapInner;
use dprint_swc_ext::swc::common::comments::Comment;
use dprint_swc_ext::swc::parser::token::TokenAndSpan;
use dprint_swc_ext::swc::ast::EsVersion;
use dprint_swc_ext::swc::common::BytePos;
use dprint_swc_ext::common::StartSourcePos;
use dprint_swc_ext::swc::common::Spanned;
use dprint_swc_ext::swc::lexer::common::parser::Parser as _;
use dprint_swc_ext::swc::lexer::Capturing;
use dprint_swc_ext::swc::lexer::Lexer;
use dprint_swc_ext::swc::lexer::Parser;
use dprint_swc_ext::swc::lexer::StringInput;
use dprint_swc_ext::swc::parser::error::Error as SwcError;
use dprint_swc_ext::swc::parser::Syntax as SwcSyntax;
use dprint_swc_ext::swc::parser::EsSyntax as SwcEsSyntax;
use dprint_swc_ext::swc::parser::TsSyntax as SwcTsSyntax;

use crate::diagnostics::ParseDiagnostic;
use crate::diagnostics::ParseDiagnosticsError;
use crate::diagnostics::kind_for_debug;
use crate::diagnostics::is_unsupported_syntax_error;
use crate::syntax::ParseMode;
use crate::syntax::Syntax;
use crate::syntax::file_name_or_empty;
use crate::syntax::jsx_retry_extension_for_components;
use crate::syntax::resolve_syntax_for_components;
use crate::syntax::spec_jsx_retry_extension;
use crate::syntax::spec_resolve_syntax;
use crate::path::PathComponent;
use crate::path::path_components;
use crate::path::path_components_of;
use crate::path::spec_file_name_str;
use crate::path::spec_specifier;
use crate::path::specifier_for_components;
use crate::text::opt_str_view;
use crate::text_info::SourceRange;
use crate::text_info::TextInfo;
use crate::text_info::strip_bom;

verus! {

#[verifier::external_type_specification]
pub struct ExProgram(dprint_swc_ext::swc::ast::Program);

#[verifier::external_type_specification]
pub struct ExModule(dprint_swc_ext::swc::ast::Module);

#[verifier::external_type_specification]
pub struct ExScript(dprint_swc_ext::swc::ast::Script);

#[verifier::external_type_specification]
#[verifier::external_body]
pub struct ExModuleItem(dprint_swc_ext::swc::ast::ModuleItem);

#[verifier::external_type_specification]
#[verifier::external_body]
pub struct ExStmt(dprint_swc_ext::swc::ast::Stmt);

#[verifier::external_type_specification]
#[verifier::external_body]
pub struct ExAtom(dprint_swc_ext::swc::atoms::Atom);

#[verifier::external_type_specification]
pub struct ExTokenAndSpan(dprint_swc_ext::swc::parser::token::TokenAndSpan);

#[verifier::external_type_specification]
#[verifier::external_body]
pub struct ExToken(dprint_swc_ext::swc::parser::token::Token);

#[verifier::external_type_specification]
pub struct ExSpan(dprint_swc_ext::swc::common::Span);

#[verifier::external_type_specification]
#[verifier::external_body]
pub struct ExSingleThreadedComments(dprint_swc_ext::swc::common::comments::SingleThreadedComments);

#[verifier::external_type_specification]
pub struct ExBytePos(dprint_swc_ext::swc::common::BytePos);

#[verifier::external_type_specification]
pub struct ExComment(dprint_swc_ext::swc::common::comments::Comment);

#[verifier::external_type_specification]
#[verifier::external_body]
pub struct ExCommentKind(dprint_swc_ext::swc::common::comments::CommentKind);

#[verifier::external_type_specification]
#[verifier::external_body]
pub struct ExSwcSyntax(SwcSyntax);

#[verifier::external_type_specification]
#[verifier::external_body]
pub struct ExSwcError(dprint_swc_ext::swc::parser::error::Error);

/// What the crate reads of a syntax error reported by the parser: the raw
/// start and end positions of its span (where the text starts at 1), the
/// `Debug` rendering of its kind, and its message.
pub struct SwcErrorInfo {
    pub lo: u32,
    pub hi: u32,
    pub kind: String,
    pub message: String,
}

/// The plain values of a syntax error.
pub open spec fn error_info_view(e: SwcErrorInfo) -> (u32, u32, Seq<char>, Seq<char>) {
    (e.lo, e.hi, e.kind@, e.message@)
}

/// The syntax tree, tokens and comments of a parse, and the syntax errors
/// the parser recovered from.
pub struct SwcParse {
    pub program: Program,
    pub tokens: Vec<TokenAndSpan>,
    pub leading: SingleThreadedCommentsMapInner,
    pub trailing: SingleThreadedCommentsMapInner,
    pub errors: Vec<SwcErrorInfo>,
}

/// A syntax error as plain values: the raw start and end positions of its
/// span, the `Debug` rendering of its kind, and its message.
pub type ErrorView = (u32, u32, Seq<char>, Seq<char>);

/// What a parse that did not give up gives as plain values: the recovered
/// syntax errors, the spans of the captured tokens, the spans of the
/// leading and of the trailing comments by the position they are attached
/// to, and of the syntax tree whether it is a module, its span and its
/// number of top level items.
pub type ParseView = (
    Seq<ErrorView>,
    Seq<(u32, u32)>,
    Map<u32, Seq<(u32, u32)>>,
    Map<u32, Seq<(u32, u32)>>,
    (bool, u32, u32, nat),
);

/// What a parse gives as plain values, or the syntax error it could not
/// recover from.
pub type ParseOutcome = Result<ParseView, ErrorView>;

/// The spans of the tokens, in order.
pub open spec fn token_spans(tokens: Seq<TokenAndSpan>) -> Seq<(u32, u32)> {
    tokens.map_values(|t: TokenAndSpan| (t.span.lo.0, t.span.hi.0))
}

/// The spans of the comments of a comment map, by the position they are
/// attached to.
pub open spec fn comment_spans(m: SingleThreadedCommentsMapInner) -> Map<u32, Seq<(u32, u32)>> {
    Map::new(
        |k: u32| m@.dom().contains(BytePos(k)),
        |k: u32| m@[BytePos(k)]@.map_values(|c: Comment| (c.span.lo.0, c.span.hi.0)),
    )
}

/// Of a syntax tree: whether it is a module, its span, and its number of
/// top level items.
pub open spec fn program_view(p: Program) -> (bool, u32, u32, nat) {
    match p {
        Program::Module(m) => (true, m.span.lo.0, m.span.hi.0, m.body@.len()),
        Program::Script(s) => (false, s.span.lo.0, s.span.hi.0, s.body@.len()),
    }
}

/// The outcome of parsing the text as a program with the syntax.
pub uninterp spec fn swc_program_outcome(text: Seq<char>, syntax: Syntax) -> ParseOutcome;

/// The outcome of parsing the text as a module with the syntax.
pub uninterp spec fn swc_module_outcome(text: Seq<char>, syntax: Syntax) -> ParseOutcome;

/// The outcome of parsing the text as a script with the syntax.
pub uninterp spec fn swc_script_outcome(text: Seq<char>, syntax: Syntax) -> ParseOutcome;

/// The outcome of a parse in the given mode.
pub open spec fn swc_outcome(text: Seq<char>, syntax: Syntax, mode: ParseMode) -> ParseOutcome {
    match mode {
        ParseMode::Program => swc_program_outcome(text, syntax),
        ParseMode::Module => swc_module_outcome(text, syntax),
        ParseMode::Script => swc_script_outcome(text, syntax),
    }
}

/// The parser's syntax for a syntax of this crate, field for field.
#[verifier::external_body]
fn swc_syntax(syntax: Syntax) -> SwcSyntax {
    match syntax {
        Syntax::Es(s) => SwcSyntax::Es(SwcEsSyntax {
            jsx: s.jsx, fn_bind: s.fn_bind, decorators: s.decorators,
            decorators_before_export: s.decorators_before_export, export_default_from: s.export_default_from,
            import_attributes: s.import_attributes, allow_super_outside_method: s.allow_super_outside_method,
            allow_return_outside_function: s.allow_return_outside_function, auto_accessors: s.auto_accessors,
            explicit_resource_management: s.explicit_resource_management,
        }),
        Syntax::Typescript(s) => SwcSyntax::Typescript(SwcTsSyntax {
            tsx: s.tsx, decorators: s.decorators, dts: s.dts, no_early_errors: s.no_early_errors,
            disallow_ambiguous_jsx_like: s.disallow_ambiguous_jsx_like, ..Default::default()
        }),
    }
}

/// A syntax error as plain values: the span's positions, the `Debug` of
/// its kind, and the kind's message (`SyntaxError::msg`).
#[verifier::external_body]
fn swc_error_info(err: &SwcError) -> SwcErrorInfo {
    let span = err.span();
    SwcErrorInfo { lo: span.lo.0, hi: span.hi.0, kind: format!("{:?}", err.kind()), message: err.kind().msg().to_string() }
}

/// The outcome of a parse as plain values.
pub open spec fn parse_result_view(res: Result<SwcParse, SwcErrorInfo>) -> ParseOutcome {
    match res {
        Ok(p) => Ok(
            (
                p.errors@.map_values(|e: SwcErrorInfo| error_info_view(e)),
                token_spans(p.tokens@),
                comment_spans(p.leading),
                comment_spans(p.trailing),
                program_view(p.program),
            ),
        ),
        Err(e) => Err(error_info_view(e)),
    }
}

/// Parses the text as a program by swc's `Parser::parse_program`, with a
/// lexer for the syntax (ECMAScript 2021) that captures tokens and comments,
/// and the text starting at position 1 (`StartSourcePos::START_SOURCE_POS`)
/// and ending at `end`. The comment maps are cloned out of the comment
/// storage by `SingleThreadedComments::borrow_all`. What the parse gives,
/// as plain values, is the outcome `swc_program_outcome` names.
#[verifier::external_body]
fn swc_parse_program(text: &str, syntax: Syntax, end: u32) -> (res: Result<SwcParse, SwcErrorInfo>)
    requires
        end == text.spec_bytes().len() + 1,
    ensures
        parse_result_view(res) == swc_program_outcome(text@, syntax),
{
    let comments = SingleThreadedComments::default();
    let input = StringInput::new(text, StartSourcePos::START_SOURCE_POS.as_byte_pos(), BytePos(end));
    let lexer = Lexer::new(swc_syntax(syntax), EsVersion::Es2021, input, Some(&comments));
    let mut parser = Parser::new_from(Capturing::new(lexer));
    let program = parser.parse_program().map_err(|e| swc_error_info(&e))?;
    let tokens = Capturing::take(&mut parser.input_mut().iter);
    let errors = parser.take_errors().iter().map(swc_error_info).collect();
    let (leading, trailing) = comments.borrow_all();
    Ok(SwcParse { program, tokens, leading: leading.clone(), trailing: trailing.clone(), errors })
}

/// Parses the text as a module by swc's `Parser::parse_module`, as
/// `swc_parse_program` does otherwise. What the parse gives, as plain
/// values, is the outcome `swc_module_outcome` names.
#[verifier::external_body]
fn swc_parse_module(text: &str, syntax: Syntax, end: u32) -> (res: Result<SwcParse, SwcErrorInfo>)
    requires
        end == text.spec_bytes().len() + 1,
    ensures
        parse_result_view(res) == swc_module_outcome(text@, syntax),
{
    let comments = SingleThreadedComments::default();
    let input = StringInput::new(text, StartSourcePos::START_SOURCE_POS.as_byte_pos(), BytePos(end));
    let lexer = Lexer::new(swc_syntax(syntax), EsVersion::Es2021, input, Some(&comments));
    let mut parser = Parser::new_from(Capturing::new(lexer));
    let program = Program::Module(parser.parse_module().map_err(|e| swc_error_info(&e))?);
    let tokens = Capturing::take(&mut parser.input_mut().iter);
    let errors = parser.take_errors().iter().map(swc_error_info).collect();
    let (leading, trailing) = comments.borrow_all();
    Ok(SwcParse { program, tokens, leading: leading.clone(), trailing: trailing.clone(), errors })
}

/// Parses the text as a script by swc's `Parser::parse_script`, as
/// `swc_parse_program` does otherwise. What the parse gives, as plain
/// values, is the outcome `swc_script_outcome` names.
#[verifier::external_body]
fn swc_parse_script(text: &str, syntax: Syntax, end: u32) -> (res: Result<SwcParse, SwcErrorInfo>)
    requires
        end == text.spec_bytes().len() + 1,
    ensures
        parse_result_view(res) == swc_script_outcome(text@, syntax),
{
    let comments = SingleThreadedComments::default();
    let input = StringInput::new(text, StartSourcePos::START_SOURCE_POS.as_byte_pos(), BytePos(end));
    let lexer = Lexer::new(swc_syntax(syntax), EsVersion::Es2021, input, Some(&comments));
    let mut parser = Parser::new_from(Capturing::new(lexer));
    let program = Program::Script(parser.parse_script().map_err(|e| swc_error_info(&e))?);
    let tokens = Capturing::take(&mut parser.input_mut().iter);
    let errors = parser.take_errors().iter().map(swc_error_info).collect();
    let (leading, trailing) = comments.borrow_all();
    Ok(SwcParse { program, tokens, leading: leading.clone(), trailing: trailing.clone(), errors })
}

/// The leading and trailing comments found while parsing.
pub struct ParsedComments {
    leading: SingleThreadedCommentsMapInner,
    trailing: SingleThreadedCommentsMapInner,
}

impl ParsedComments {
    /// The comments that appear before a position, by position.
    pub closed spec fn spec_leading(&self) -> SingleThreadedCommentsMapInner {
        self.leading
    }

    /// The comments that appear after a position, by position.
    pub closed spec fn spec_trailing(&self) -> SingleThreadedCommentsMapInner {
        self.trailing
    }

    /// Map of comments that appear before a position.
    pub fn leading_map(&self) -> (res: &SingleThreadedCommentsMapInner)
        ensures
            *res == self.spec_leading(),
    {
        &self.leading
    }

    /// Map of comments that appear after a position.
    pub fn trailing_map(&self) -> (res: &SingleThreadedCommentsMapInner)
        ensures
            *res == self.spec_trailing(),
    {
        &self.trailing
    }
}

/// A position of the parser (where the text starts at 1) as a byte offset
/// into the text; the dummy position 0 becomes 0.
pub open spec fn offset_of(pos: u32) -> usize {
    if pos >= 1 {
        (pos - 1) as usize
    } else {
        0
    }
}

/// The diagnostic is the one for the syntax error in the text of the
/// specifier.
pub open spec fn diagnostic_for(
    d: ParseDiagnostic,
    e: (u32, u32, Seq<char>, Seq<char>),
    specifier: Seq<char>,
    text: Seq<char>,
) -> bool {
    &&& d.spec_specifier() == specifier
    &&& d.spec_range() == SourceRange { start: offset_of(e.0), end: offset_of(e.1) }
    &&& d.spec_kind_debug() == e.2
    &&& d.spec_message() == e.3
    &&& d.spec_text_info().chars() == strip_bom(text)
}

/// Each diagnostic is the one for the syntax error at its index.
pub open spec fn diagnostics_for(
    ds: Seq<ParseDiagnostic>,
    es: Seq<(u32, u32, Seq<char>, Seq<char>)>,
    specifier: Seq<char>,
    text: Seq<char>,
) -> bool {
    &&& ds.len() == es.len()
    &&& forall|i: int| 0 <= i < ds.len() ==> diagnostic_for(#[trigger] ds[i], es[i], specifier, text)
}

/// Whether a syntax error stops the syntax tree from representing the text.
pub open spec fn is_unsupported_error(e: (u32, u32, Seq<char>, Seq<char>)) -> bool {
    !(kind_for_debug(e.2) is Other)
}

/// The syntax errors that stop the syntax tree from representing the text,
/// in order.
pub open spec fn unsupported_errors(es: Seq<(u32, u32, Seq<char>, Seq<char>)>) -> Seq<(u32, u32, Seq<char>, Seq<char>)>
    decreases es.len(),
{
    if es.len() == 0 {
        Seq::empty()
    } else if is_unsupported_error(es.last()) {
        unsupported_errors(es.drop_last()).push(es.last())
    } else {
        unsupported_errors(es.drop_last())
    }
}

/// The syntax errors that the syntax tree survives, in order.
pub open spec fn supported_errors(es: Seq<(u32, u32, Seq<char>, Seq<char>)>) -> Seq<(u32, u32, Seq<char>, Seq<char>)>
    decreases es.len(),
{
    if es.len() == 0 {
        Seq::empty()
    } else if is_unsupported_error(es.last()) {
        supported_errors(es.drop_last())
    } else {
        supported_errors(es.drop_last()).push(es.last())
    }
}

proof fn lemma_all_supported(es: Seq<(u32, u32, Seq<char>, Seq<char>)>)
    requires
        unsupported_errors(es).len() == 0,
    ensures
        supported_errors(es) == es,
    decreases es.len(),
{
    if es.len() > 0 {
        if !is_unsupported_error(es.last()) {
            lemma_all_supported(es.drop_last());
            assert(es.drop_last().push(es.last()) =~= es);
        }
    }
}

/// An error refusing a parse.
pub enum ParseError {
    /// The parser could not recover from this syntax error.
    Diagnostic(ParseDiagnostic),
    /// The parser recovered from these syntax errors, but the syntax tree
    /// no longer represents the text.
    Diagnostics(ParseDiagnosticsError),
}

impl ParseError {
    /// Renders the error.
    pub fn to_string(&self) -> (res: String)
        requires
            match self {
                ParseError::Diagnostic(d) => d.renderable(),
                ParseError::Diagnostics(ds) => forall|i: int| 0 <= i < ds.0@.len() ==> (#[trigger] ds.0@[i]).renderable(),
            },
        ensures
            match self {
                ParseError::Diagnostic(d) => res@ == d.spec_to_string(),
                ParseError::Diagnostics(ds) => res@ == crate::diagnostics::spec_join_renderings(ds.0@),
            },
    {
        match self {
            ParseError::Diagnostic(d) => d.to_string(),
            ParseError::Diagnostics(ds) => ds.to_string(),
        }
    }
}

/// A source parsed by this crate, holding its syntax tree, comments and
/// tokens.
pub struct ParsedSource {
    specifier: String,
    text: String,
    syntax: Syntax,
    text_info: TextInfo,
    program: Program,
    comments: ParsedComments,
    tokens: Vec<TokenAndSpan>,
    diagnostics: Vec<ParseDiagnostic>,
}

impl ParsedSource {
    /// The text fits the byte positions of the crate, and the text info is
    /// that of the text.
    #[verifier::type_invariant]
    spec fn inv(self) -> bool {
        &&& vstd::utf8::encode_utf8(self.text@).len() <= isize::MAX
        &&& self.text_info.chars() == strip_bom(self.text@)
    }

    pub closed spec fn spec_specifier(&self) -> Seq<char> {
        self.specifier@
    }

    pub closed spec fn spec_text(&self) -> Seq<char> {
        self.text@
    }

    pub closed spec fn spec_syntax(&self) -> Syntax {
        self.syntax
    }

    pub closed spec fn spec_text_info(&self) -> TextInfo {
        self.text_info
    }

    pub closed spec fn spec_diagnostics(&self) -> Seq<ParseDiagnostic> {
        self.diagnostics@
    }

    /// The syntax tree the parser gave.
    pub closed spec fn spec_program(&self) -> Program {
        self.program
    }

    /// The comments the parser found.
    pub closed spec fn spec_comments(&self) -> ParsedComments {
        self.comments
    }

    /// The tokens the parser captured, in order.
    pub closed spec fn spec_tokens(&self) -> Seq<TokenAndSpan> {
        self.tokens@
    }

    /// Specifier of the source that was parsed.
    pub fn specifier(&self) -> (res: &str)
        ensures
            res@ == self.spec_specifier(),
    {
        self.specifier.as_str()
    }

    /// Text of the source that was parsed, with any byte order mark stripped.
    pub fn text(&self) -> (res: &str)
        ensures
            res@ == self.spec_text(),
    {
        self.text.as_str()
    }

    /// Syntax the source was parsed with.
    pub fn syntax(&self) -> (res: Syntax)
        ensures
            res == self.spec_syntax(),
    {
        self.syntax
    }

    /// Positions of the lines of the text. The text info holds the text
    /// (without a further byte order mark, should the text start with one),
    /// so when the text does not start with one, its text and range are the
    /// parsed source's.
    pub fn text_info(&self) -> (res: &TextInfo)
        ensures
            *res == self.spec_text_info(),
            res.chars() == strip_bom(self.spec_text()),
            !(self.spec_text().len() > 0 && self.spec_text()[0] == crate::text_info::bom()) ==> res.chars()
                == self.spec_text() && res.bytes().len() == vstd::utf8::encode_utf8(self.spec_text()).len(),
    {
        proof {
            use_type_invariant(self);
            self.text_info.lemma_bytes_of_chars();
        }
        &self.text_info
    }

    /// Range of the parsed source.
    pub fn range(&self) -> (res: SourceRange)
        ensures
            res.start == 0,
            res.end == vstd::utf8::encode_utf8(self.spec_text()).len(),
    {
        proof {
            use_type_invariant(self);
        }
        SourceRange::new(0, self.text.as_str().len())
    }

    /// Gets the parsed program.
    pub fn program(&self) -> (res: &Program)
        ensures
            *res == self.spec_program(),
    {
        &self.program
    }

    /// Gets the comments found in the source.
    pub fn comments(&self) -> (res: &ParsedComments)
        ensures
            *res == self.spec_comments(),
    {
        &self.comments
    }

    /// Gets the tokens found in the source.
    pub fn tokens(&self) -> (res: &Vec<TokenAndSpan>)
        ensures
            res@ == self.spec_tokens(),
    {
        &self.tokens
    }

    /// Gets the syntax errors the parser recovered from without losing any
    /// of the text.
    pub fn diagnostics(&self) -> (res: &Vec<ParseDiagnostic>)
        ensures
            res@ == self.spec_diagnostics(),
    {
        &self.diagnostics
    }
}

/// The text without a leading byte order mark.
pub fn strip_bom_str(text: &str) -> (res: String)
    ensures
        res@ == strip_bom(text@),
{
    let n = text.unicode_len();
    if n > 0 && text.get_char(0) == '\u{FEFF}' {
        String::from_str(text.substring_char(1, n))
    } else {
        String::from_str(text)
    }
}


/// The diagnostic for a syntax error in the text of the specifier.
fn make_diagnostic(e: &SwcErrorInfo, specifier: &str, text: &str) -> (res: ParseDiagnostic)
    requires
        text.spec_bytes().len() <= isize::MAX,
        text.spec_bytes().len() < u32::MAX,
    ensures
        diagnostic_for(res, error_info_view(*e), specifier@, text@),
{
    let start = if e.lo >= 1 { (e.lo - 1) as usize } else { 0 };
    let end = if e.hi >= 1 { (e.hi - 1) as usize } else { 0 };
    ParseDiagnostic::new(
        String::from_str(specifier),
        SourceRange::new(start, end),
        String::from_str(e.kind.as_str()),
        String::from_str(e.message.as_str()),
        TextInfo::from_str(text),
    )
}

/// The result of a parse is the one the parser's outcome gives: an error
/// with the diagnostic for a syntax error the parser could not recover
/// from; an error with the diagnostics for the recovered syntax errors
/// that stop the syntax tree from representing the text, when there are
/// any; and otherwise the parsed source with the diagnostics for all the
/// recovered syntax errors, and with the tokens, comments and syntax tree
/// of that parse.
pub open spec fn parse_result_for(
    res: Result<ParsedSource, ParseError>,
    outcome: ParseOutcome,
    specifier: Seq<char>,
    text: Seq<char>,
    syntax: Syntax,
) -> bool {
    match outcome {
        Err(fatal) => res matches Err(ParseError::Diagnostic(d)) && diagnostic_for(d, fatal, specifier, text),
        Ok(view) => if unsupported_errors(view.0).len() > 0 {
            res matches Err(ParseError::Diagnostics(ds)) && diagnostics_for(
                ds.0@,
                unsupported_errors(view.0),
                specifier,
                text,
            )
        } else {
            res matches Ok(ps) && ps.spec_specifier() == specifier && ps.spec_text() == text
                && ps.spec_syntax() == syntax && ps.spec_text_info().chars() == strip_bom(text)
                && diagnostics_for(ps.spec_diagnostics(), view.0, specifier, text)
                && token_spans(ps.spec_tokens()) == view.1
                && comment_spans(ps.spec_comments().spec_leading()) == view.2
                && comment_spans(ps.spec_comments().spec_trailing()) == view.3
                && program_view(ps.spec_program()) == view.4
        },
    }
}

/// Parses the text with the given syntax and mode, after stripping any
/// byte order mark. The parser's positions are `u32`, so the text must be
/// shorter than `u32::MAX` bytes.
pub fn parse_syntax(specifier: String, text: &str, syntax: Syntax, mode: ParseMode) -> (res: Result<ParsedSource, ParseError>)
    requires
        text.spec_bytes().len() <= isize::MAX,
        text.spec_bytes().len() < u32::MAX,
    ensures
        parse_result_for(res, swc_outcome(strip_bom(text@), syntax, mode), specifier@, strip_bom(text@), syntax),
{
    let text_in = text;
    let text = strip_bom_str(text);
    proof {
        crate::text_info::lemma_strip_bom_bytes(text_in@);
    }
    let len = text.as_str().len();
    let end: u32 = len as u32 + 1;
    let parsed = match mode {
        ParseMode::Program => swc_parse_program(text.as_str(), syntax, end),
        ParseMode::Module => swc_parse_module(text.as_str(), syntax, end),
        ParseMode::Script => swc_parse_script(text.as_str(), syntax, end),
    };
    parse_result_from(specifier, text, syntax, parsed)
}

/// The result of a parse from what the parser gave for the text (with no
/// byte order mark left to strip): an error with the diagnostic for a
/// syntax error the parser could not recover from; an error with the
/// diagnostics for the recovered syntax errors that stop the syntax tree
/// from representing the text, when there are any; and otherwise the parsed
/// source with the parser's syntax tree, tokens and comments, and with the
/// diagnostics for all the recovered syntax errors.
pub fn parse_result_from(
    specifier: String,
    text: String,
    syntax: Syntax,
    parsed: Result<SwcParse, SwcErrorInfo>,
) -> (res: Result<ParsedSource, ParseError>)
    requires
        vstd::utf8::encode_utf8(text@).len() <= isize::MAX,
        vstd::utf8::encode_utf8(text@).len() < u32::MAX,
    ensures
        parse_result_for(res, parse_result_view(parsed), specifier@, text@, syntax),
{
    let parsed = match parsed {
        Ok(parsed) => parsed,
        Err(fatal) => {
            return Err(ParseError::Diagnostic(make_diagnostic(&fatal, specifier.as_str(), text.as_str())));
        },
    };
    let ghost errors = parsed.errors@.map_values(|e: SwcErrorInfo| error_info_view(e));
    let mut unsupported: Vec<ParseDiagnostic> = Vec::new();
    let mut supported: Vec<ParseDiagnostic> = Vec::new();
    let mut i: usize = 0;
    while i < parsed.errors.len()
        invariant
            i <= parsed.errors@.len(),
            errors == parsed.errors@.map_values(|e: SwcErrorInfo| error_info_view(e)),
            vstd::utf8::encode_utf8(text@).len() <= isize::MAX,
            vstd::utf8::encode_utf8(text@).len() < u32::MAX,
            diagnostics_for(supported@, supported_errors(errors.take(i as int)), specifier@, text@),
            diagnostics_for(unsupported@, unsupported_errors(errors.take(i as int)), specifier@, text@),
        decreases parsed.errors@.len() - i,
    {
        let d = make_diagnostic(&parsed.errors[i], specifier.as_str(), text.as_str());
        assert(errors.take(i + 1).drop_last() =~= errors.take(i as int));
        if is_unsupported_syntax_error(&d.kind()) {
            unsupported.push(d);
        } else {
            supported.push(d);
        }
        i = i + 1;
    }
    assert(errors.take(i as int) =~= errors);
    if unsupported.len() > 0 {
        return Err(ParseError::Diagnostics(ParseDiagnosticsError(unsupported)));
    }
    proof {
        lemma_all_supported(errors);
    }
    let text_info = TextInfo::from_str(text.as_str());
    Ok(
        ParsedSource {
            specifier,
            text,
            syntax,
            text_info,
            program: parsed.program,
            comments: ParsedComments { leading: parsed.leading, trailing: parsed.trailing },
            tokens: parsed.tokens,
            diagnostics: supported,
        },
    )
}

/// Whether a parse with this outcome gives a parsed source.
pub open spec fn outcome_accepted(outcome: ParseOutcome) -> bool {
    outcome matches Ok(view) && unsupported_errors(view.0).len() == 0
}

/// The outcome of parsing the text of a path with these components, with
/// `extension` in place of the one on its file name when given.
pub open spec fn path_outcome(components: Seq<PathComponent>, extension: Option<Seq<char>>, text: Seq<char>) -> ParseOutcome {
    let (syntax, mode) = spec_resolve_syntax(file_name_or_empty(components), extension);
    swc_outcome(strip_bom(text), syntax, mode)
}

/// The result is the one a parse of the text of a path with these
/// components gives, with `extension` in place of the one on its file name
/// when given.
pub open spec fn path_parse_result(
    res: Result<ParsedSource, ParseError>,
    components: Seq<PathComponent>,
    extension: Option<Seq<char>>,
    text: Seq<char>,
) -> bool {
    let (syntax, mode) = spec_resolve_syntax(file_name_or_empty(components), extension);
    parse_result_for(res, path_outcome(components, extension, text), spec_specifier(components), strip_bom(text), syntax)
}

fn parse_inner(components: &Vec<PathComponent>, file_extension: Option<&str>, text: &str) -> (res: Result<ParsedSource, ParseError>)
    requires
        text.spec_bytes().len() <= isize::MAX,
        text.spec_bytes().len() < u32::MAX,
    ensures
        path_parse_result(res, components@, opt_str_view(file_extension), text@),
{
    let (syntax, mode) = resolve_syntax_for_components(components, file_extension);
    parse_syntax(specifier_for_components(components), text, syntax, mode)
}

/// The result of parsing a file: the parse with the extension (given, or
/// on the file name) when that gives a parsed source, or else the parse
/// retried with JSX enabled (`tsx` for TypeScript extensions and `jsx`
/// for JavaScript ones) when that gives one, and otherwise the error of the
/// first parse.
pub open spec fn program_parse_result(
    res: Result<ParsedSource, ParseError>,
    components: Seq<PathComponent>,
    extension: Option<Seq<char>>,
    text: Seq<char>,
) -> bool {
    if outcome_accepted(path_outcome(components, extension, text)) {
        path_parse_result(res, components, extension, text)
    } else {
        match spec_jsx_retry_extension(spec_file_name_str(components), extension) {
            Some(jsx) => if outcome_accepted(path_outcome(components, Some(jsx), text)) {
                path_parse_result(res, components, Some(jsx), text)
            } else {
                path_parse_result(res, components, extension, text)
            },
            None => path_parse_result(res, components, extension, text),
        }
    }
}

proof fn lemma_accepted_iff_ok(
    res: Result<ParsedSource, ParseError>,
    components: Seq<PathComponent>,
    extension: Option<Seq<char>>,
    text: Seq<char>,
)
    requires
        path_parse_result(res, components, extension, text),
    ensures
        res is Ok <==> outcome_accepted(path_outcome(components, extension, text)),
{
}

/// Parses the text of a file whose path has these components.
pub fn parse_program_for_components(components: &Vec<PathComponent>, extension: Option<&str>, text: &str) -> (res: Result<ParsedSource, ParseError>)
    requires
        text.spec_bytes().len() <= isize::MAX,
        text.spec_bytes().len() < u32::MAX,
    ensures
        program_parse_result(res, components@, opt_str_view(extension), text@),
{
    let first = parse_inner(components, extension, text);
    proof {
        lemma_accepted_iff_ok(first, components@, opt_str_view(extension), text@);
    }
    match first {
        Ok(result) => Ok(result),
        Err(err) => {
            // a file may contain jsx despite its extension, so try again as jsx
            let jsx_extension = match jsx_retry_extension_for_components(components, extension) {
                Some(jsx_extension) => jsx_extension,
                None => {
                    return Err(err);
                },
            };
            let second = parse_inner(components, Some(jsx_extension), text);
            proof {
                lemma_accepted_iff_ok(second, components@, Some(jsx_extension@), text@);
            }
            match second {
                Ok(result) => Ok(result),
                Err(_) => Err(err),
            }
        },
    }
}

/// What to parse.
pub struct ParseOptions<'a> {
    /// Path of the file, which determines the syntax used when parsing.
    pub path: &'a std::path::Path,
    /// Extension to use instead of the one on the path, if any.
    pub extension: Option<&'a str>,
    /// Text of the file. Any byte order mark is stripped before parsing.
    pub text: String,
}

/// Parses a file for formatting.
///
/// Errors when the text could not be parsed at all, and also when the parser
/// recovered from a syntax error that would stop the syntax tree from
/// representing the original text. Any remaining recovered errors are on
/// the parsed source's diagnostics. The parser's positions are `u32`, so
/// the text must be shorter than `u32::MAX` bytes.
pub fn parse_program(options: ParseOptions) -> (res: Result<ParsedSource, ParseError>)
    requires
        vstd::utf8::encode_utf8(options.text@).len() <= isize::MAX,
        vstd::utf8::encode_utf8(options.text@).len() < u32::MAX,
    ensures
        program_parse_result(res, path_components_of(options.path), opt_str_view(options.extension), options.text@),
{
    let components = path_components(options.path);
    parse_program_for_components(&components, options.extension, options.text.as_str())
}

proof fn lemma_no_unsupported_errors(es: Seq<(u32, u32, Seq<char>, Seq<char>)>)
    requires
        unsupported_errors(es).len() == 0,
    ensures
        forall|i: int| 0 <= i < es.len() ==> !is_unsupported_error(#[trigger] es[i]),
    decreases es.len(),
{
    if es.len() > 0 {
        lemma_no_unsupported_errors(es.drop_last());
        assert forall|i: int| 0 <= i < es.len() implies !is_unsupported_error(#[trigger] es[i]) by {
            if i < es.len() - 1 {
                assert(es[i] == es.drop_last()[i]);
            }
        }
    }
}

/// Law: a parse that gives a parsed source only keeps diagnostics from
/// which the syntax tree still represents the text; the others refuse the
/// parse.
pub proof fn law_parsed_sources_keep_only_supported_diagnostics(
    res: Result<ParsedSource, ParseError>,
    outcome: ParseOutcome,
    specifier: Seq<char>,
    text: Seq<char>,
    syntax: Syntax,
)
    requires
        parse_result_for(res, outcome, specifier, text, syntax),
        res is Ok,
    ensures
        forall|i: int|
            0 <= i < res->Ok_0.spec_diagnostics().len() ==> (#[trigger] res->Ok_0.spec_diagnostics()[i]).spec_kind() is Other,
{
    let errors = outcome->Ok_0.0;
    lemma_no_unsupported_errors(errors);
    let ds = res->Ok_0.spec_diagnostics();
    assert forall|i: int| 0 <= i < ds.len() implies (#[trigger] ds[i]).spec_kind() is Other by {
        assert(diagnostic_for(ds[i], errors[i], specifier, text));
        assert(!is_unsupported_error(errors[i]));
    }
}

/// Law: a parse is refused exactly when the parser could not recover, or
/// recovered from a syntax error that stops the syntax tree from
/// representing the text.
pub proof fn law_parse_refused_iff_unsupported(
    res: Result<ParsedSource, ParseError>,
    outcome: ParseOutcome,
    specifier: Seq<char>,
    text: Seq<char>,
    syntax: Syntax,
)
    requires
        parse_result_for(res, outcome, specifier, text, syntax),
    ensures
        res is Err <==> (outcome is Err || exists|i: int|
            0 <= i < outcome->Ok_0.0.len() && is_unsupported_error(#[trigger] outcome->Ok_0.0[i])),
{
    if outcome is Ok {
        let errors = outcome->Ok_0.0;
        if unsupported_errors(errors).len() == 0 {
            lemma_no_unsupported_errors(errors);
        } else {
            lemma_unsupported_errors_nonempty(errors);
        }
    }
}

proof fn lemma_unsupported_errors_nonempty(es: Seq<(u32, u32, Seq<char>, Seq<char>)>)
    requires
        unsupported_errors(es).len() > 0,
    ensures
        exists|i: int| 0 <= i < es.len() && is_unsupported_error(#[trigger] es[i]),
    decreases es.len(),
{
    if es.len() > 0 {
        if is_unsupported_error(es.last()) {
            assert(is_unsupported_error(es[es.len() - 1]));
        } else {
            lemma_unsupported_errors_nonempty(es.drop_last());
            let i = choose|i: int| 0 <= i < es.drop_last().len() && is_unsupported_error(#[trigger] es.drop_last()[i]);
            assert(es[i] == es.drop_last()[i]);
        }
    }
}

/// Law: the JSX retry of a file's parse. A first parse that gives a parsed
/// source is the result, without a retry; otherwise the result is a parsed
/// source exactly when there is a JSX extension to retry with and the retry
/// gives one; a refused result is always the first parse's error; and a
/// parsed source only holds diagnostics that the syntax tree survives.
pub proof fn law_jsx_retry(
    res: Result<ParsedSource, ParseError>,
    components: Seq<PathComponent>,
    extension: Option<Seq<char>>,
    text: Seq<char>,
)
    requires
        program_parse_result(res, components, extension, text),
    ensures
        outcome_accepted(path_outcome(components, extension, text)) ==> path_parse_result(
            res,
            components,
            extension,
            text,
        ),
        !outcome_accepted(path_outcome(components, extension, text)) ==> (res is Ok <==> (spec_jsx_retry_extension(
            spec_file_name_str(components),
            extension,
        ) matches Some(jsx) && outcome_accepted(path_outcome(components, Some(jsx), text)))),
        res is Err ==> path_parse_result(res, components, extension, text),
        res is Ok ==> forall|i: int|
            0 <= i < res->Ok_0.spec_diagnostics().len() ==> (#[trigger] res->Ok_0.spec_diagnostics()[i]).spec_kind() is Other,
{
    let first = path_outcome(components, extension, text);
    let ext_used = if outcome_accepted(first) {
        extension
    } else {
        match spec_jsx_retry_extension(spec_file_name_str(components), extension) {
            Some(jsx) => if outcome_accepted(path_outcome(components, Some(jsx), text)) {
                Some(jsx)
            } else {
                extension
            },
            None => extension,
        }
    };
    assert(path_parse_result(res, components, ext_used, text));
    lemma_accepted_iff_ok(res, components, ext_used, text);
    if res is Ok {
        let (syntax, mode) = spec_resolve_syntax(file_name_or_empty(components), ext_used);
        law_parsed_sources_keep_only_supported_diagnostics(
            res,
            path_outcome(components, ext_used, text),
            spec_specifier(components),
            strip_bom(text),
            syntax,
        );
    }
}

/// Two diagnostics for the same syntax error in the same text render alike.
proof fn lemma_same_error_renders_alike(
    x: ParseDiagnostic,
    y: ParseDiagnostic,
    e: ErrorView,
    specifier: Seq<char>,
    text: Seq<char>,
)
    requires
        diagnostic_for(x, e, specifier, text),
        diagnostic_for(y, e, specifier, text),
    ensures
        x.spec_to_string() == y.spec_to_string(),
{
    x.spec_text_info().lemma_bytes_of_chars();
    y.spec_text_info().lemma_bytes_of_chars();
}

proof fn lemma_same_errors_render_alike(
    xs: Seq<ParseDiagnostic>,
    ys: Seq<ParseDiagnostic>,
    es: Seq<ErrorView>,
    specifier: Seq<char>,
    text: Seq<char>,
)
    requires
        diagnostics_for(xs, es, specifier, text),
        diagnostics_for(ys, es, specifier, text),
    ensures
        crate::diagnostics::spec_join_renderings(xs) == crate::diagnostics::spec_join_renderings(ys),
    decreases xs.len(),
{
    if xs.len() > 0 {
        let n = xs.len() - 1;
        lemma_same_error_renders_alike(xs[n], ys[n], es[n], specifier, text);
        assert(diagnostics_for(xs.drop_last(), es.drop_last(), specifier, text)) by {
            assert forall|i: int| 0 <= i < xs.drop_last().len() implies diagnostic_for(
                #[trigger] xs.drop_last()[i],
                es.drop_last()[i],
                specifier,
                text,
            ) by {
                assert(diagnostic_for(xs[i], es[i], specifier, text));
            }
        }
        assert(diagnostics_for(ys.drop_last(), es.drop_last(), specifier, text)) by {
            assert forall|i: int| 0 <= i < ys.drop_last().len() implies diagnostic_for(
                #[trigger] ys.drop_last()[i],
                es.drop_last()[i],
                specifier,
                text,
            ) by {
                assert(diagnostic_for(ys[i], es[i], specifier, text));
            }
        }
        lemma_same_errors_render_alike(xs.drop_last(), ys.drop_last(), es.drop_last(), specifier, text);
        if xs.len() == 1 {
            lemma_same_error_renders_alike(xs[0], ys[0], es[0], specifier, text);
        }
    }
}

/// Law: a leading byte order mark does not change a parse: a text with one
/// gives what the text without it gives, the same text, text info,
/// diagnostics, tokens, comments and syntax tree when it is parsed, and
/// the same rendered error when it is refused.
pub proof fn law_byte_order_mark_does_not_change_the_parse(
    res_a: Result<ParsedSource, ParseError>,
    res_b: Result<ParsedSource, ParseError>,
    specifier: Seq<char>,
    t: Seq<char>,
    syntax: Syntax,
    mode: ParseMode,
)
    requires
        !(t.len() > 0 && t[0] == crate::text_info::bom()),
        parse_result_for(
            res_a,
            swc_outcome(strip_bom(seq![crate::text_info::bom()] + t), syntax, mode),
            specifier,
            strip_bom(seq![crate::text_info::bom()] + t),
            syntax,
        ),
        parse_result_for(res_b, swc_outcome(strip_bom(t), syntax, mode), specifier, strip_bom(t), syntax),
    ensures
        res_a is Ok <==> res_b is Ok,
        res_a matches Ok(pa) ==> res_b matches Ok(pb) && {
            &&& pa.spec_text() == t
            &&& pb.spec_text() == t
            &&& pa.spec_text_info().chars() == t
            &&& pb.spec_text_info().chars() == t
            &&& pa.spec_diagnostics().len() == pb.spec_diagnostics().len()
            &&& forall|i: int|
                0 <= i < pa.spec_diagnostics().len() ==> {
                    let (x, y) = (#[trigger] pa.spec_diagnostics()[i], pb.spec_diagnostics()[i]);
                    &&& x.spec_specifier() == y.spec_specifier()
                    &&& x.spec_range() == y.spec_range()
                    &&& x.spec_kind_debug() == y.spec_kind_debug()
                    &&& x.spec_message() == y.spec_message()
                }
            &&& token_spans(pa.spec_tokens()) == token_spans(pb.spec_tokens())
            &&& comment_spans(pa.spec_comments().spec_leading()) == comment_spans(pb.spec_comments().spec_leading())
            &&& comment_spans(pa.spec_comments().spec_trailing()) == comment_spans(pb.spec_comments().spec_trailing())
            &&& program_view(pa.spec_program()) == program_view(pb.spec_program())
        },
        res_a matches Err(ParseError::Diagnostic(x)) ==> res_b matches Err(ParseError::Diagnostic(y))
            && x.spec_to_string() == y.spec_to_string(),
        res_a matches Err(ParseError::Diagnostics(xs)) ==> res_b matches Err(ParseError::Diagnostics(ys))
            && crate::diagnostics::spec_join_renderings(xs.0@) == crate::diagnostics::spec_join_renderings(ys.0@),
{
    let with_bom = seq![crate::text_info::bom()] + t;
    assert(with_bom.drop_first() =~= t);
    assert(strip_bom(with_bom) == t);
    assert(strip_bom(t) == t);
    let outcome = swc_outcome(t, syntax, mode);
    match outcome {
        Err(fatal) => {
            let x = res_a->Err_0->Diagnostic_0;
            let y = res_b->Err_0->Diagnostic_0;
            lemma_same_error_renders_alike(x, y, fatal, specifier, t);
        },
        Ok(view) => {
            if unsupported_errors(view.0).len() > 0 {
                let xs = res_a->Err_0->Diagnostics_0;
                let ys = res_b->Err_0->Diagnostics_0;
                lemma_same_errors_render_alike(xs.0@, ys.0@, unsupported_errors(view.0), specifier, t);
            } else {
                let pa = res_a->Ok_0;
                let pb = res_b->Ok_0;
                assert forall|i: int| 0 <= i < pa.spec_diagnostics().len() implies {
                    let (x, y) = (#[trigger] pa.spec_diagnostics()[i], pb.spec_diagnostics()[i]);
                    &&& x.spec_specifier() == y.spec_specifier()
                    &&& x.spec_range() == y.spec_range()
                    &&& x.spec_kind_debug() == y.spec_kind_debug()
                    &&& x.spec_message() == y.spec_message()
                } by {
                    assert(diagnostic_for(pa.spec_diagnostics()[i], view.0[i], specifier, t));
                    assert(diagnostic_for(pb.spec_diagnostics()[i], view.0[i], specifier, t));
                }
            }
        },
    }
}

} // verus!
