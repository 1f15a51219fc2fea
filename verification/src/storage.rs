//! The `#[storage]` macro: places the fields of a struct in the storage slots
//! of a contract.

use proc_macro2::TokenStream;
use vstd::prelude::*;

use crate::attrs::{consume_flag, has_flag, is_flag, without_flag};
use crate::diagnostics::{reports, Diagnostic, DiagnosticView, Expansion, ExpansionView};
use crate::syntax::{
    is_left, left, optional_tokens, parse_struct, parsed_struct, print_left, struct_syntax,
    AttributeSyntax, Field, FieldAttributeView, FieldSyntax, FieldView, Generics, GenericsView,
    StructField, StructFieldView, StructItem, StructSyntax, StructView,
};
use crate::text::{capital, same, upper};
use crate::tokens::Part::{Life, Num, Op, Op2, Sep, Unit, Word};
use crate::tokens::{
    braces, code, decimal, is_word, parens, push_code, push_group, push_part, push_stream, tokens,
    write_code, write_part, Delimiter, Token,
};

verus! {

/// The name is that of a primitive integer with a fixed width, or of the
/// integer type of the same width in `alloy_primitives`.
pub open spec fn is_integer_name(name: Seq<char>) -> bool {
    ||| name == "u8"@ || name == "u16"@ || name == "u32"@ || name == "u64"@ || name == "u128"@
    ||| name == "i8"@ || name == "i16"@ || name == "i32"@ || name == "i64"@ || name == "i128"@
    ||| name == "U8"@ || name == "U16"@ || name == "U32"@ || name == "U64"@ || name == "U128"@
    ||| name == "I8"@ || name == "I16"@ || name == "I32"@ || name == "I64"@ || name == "I128"@
}

/// Why a type of that name cannot be kept in storage, and what to use in its
/// place; nothing if it can.
pub open spec fn refusal(name: Seq<char>) -> Option<Seq<char>> {
    let refused = "Type `"@ + name + "` not supported for EVM state storage"@;
    if is_integer_name(name) {
        Some(
            refused + ". Instead try `Storage"@ + name.map_values(|c: char| capital(c)) + "`."@,
        )
    } else if name == "usize"@ || name == "isize"@ {
        Some(refused + "."@)
    } else if name == "bool"@ {
        Some(refused + ". Instead try `StorageBool`."@)
    } else if name == "f32"@ || name == "f64"@ {
        Some(refused + ". Consider fixed-point arithmetic."@)
    } else {
        None
    }
}

/// The error on a field whose type cannot be kept in storage.
pub open spec fn field_refusal(field: FieldView) -> Option<DiagnosticView> {
    match field.ty.last() {
        Some(last) => match refusal(last.ident) {
            Some(message) => Some(DiagnosticView { at: field.tokens, message }),
            None => None,
        },
        None => None,
    }
}

/// [`is_integer_name`], decided.
fn names_integer(name: &str) -> (found: bool)
    ensures
        found == is_integer_name(name@),
{
    same(name, "u8") || same(name, "u16") || same(name, "u32") || same(name, "u64") || same(
        name,
        "u128",
    ) || same(name, "i8") || same(name, "i16") || same(name, "i32") || same(name, "i64") || same(
        name,
        "i128",
    ) || same(name, "U8") || same(name, "U16") || same(name, "U32") || same(name, "U64") || same(
        name,
        "U128",
    ) || same(name, "I8") || same(name, "I16") || same(name, "I32") || same(name, "I64") || same(
        name,
        "I128",
    )
}

/// The names of integers are in ASCII.
proof fn lemma_integer_names_are_ascii(name: Seq<char>)
    requires
        is_integer_name(name),
    ensures
        forall|i: int| 0 <= i < name.len() ==> (#[trigger] name[i] as int) < 128,
{
    reveal_strlit("u8");
    reveal_strlit("u16");
    reveal_strlit("u32");
    reveal_strlit("u64");
    reveal_strlit("u128");
    reveal_strlit("i8");
    reveal_strlit("i16");
    reveal_strlit("i32");
    reveal_strlit("i64");
    reveal_strlit("i128");
    reveal_strlit("U8");
    reveal_strlit("U16");
    reveal_strlit("U32");
    reveal_strlit("U64");
    reveal_strlit("U128");
    reveal_strlit("I8");
    reveal_strlit("I16");
    reveal_strlit("I32");
    reveal_strlit("I64");
    reveal_strlit("I128");
}

/// Looks at the type of a field, and reports it if it is one of the types that
/// cannot be kept in storage.
pub fn check_type(field: &Field) -> (report: Option<Diagnostic>)
    requires
        field@.ty.last() is Some,
    ensures
        (match report {
            Some(report) => Some(report@),
            None => None::<DiagnosticView>,
        }) == field_refusal(field@),
{
    let name = match field.ty.last() {
        Some(last) => last.ident.as_str(),
        None => "",
    };
    let refused = String::from_str("Type `").concat(name).concat(
        "` not supported for EVM state storage",
    );
    let message = if names_integer(name) {
        proof {
            lemma_integer_names_are_ascii(name@);
        }
        refused.concat(". Instead try `Storage").concat(upper(name).as_str()).concat("`.")
    } else if same(name, "usize") || same(name, "isize") {
        refused.concat(".")
    } else if same(name, "bool") {
        refused.concat(". Instead try `StorageBool`.")
    } else if same(name, "f32") || same(name, "f64") {
        refused.concat(". Consider fixed-point arithmetic.")
    } else {
        return None;
    };
    Some(Diagnostic { at: field.tokens.clone(), message })
}

/// How generated code reaches a field.
#[derive(Debug)]
pub enum Member {
    /// By its name.
    Named(TokenStream),
    /// By its place in a tuple.
    Unnamed(u32),
}

impl View for Member {
    type V = Seq<Token>;

    open spec fn view(&self) -> Seq<Token> {
        match self {
            Member::Named(name) => tokens(*name),
            Member::Unnamed(index) => seq![Token::Literal(decimal(*index as nat))],
        }
    }
}

/// A field that is kept in storage.
#[derive(Debug)]
pub struct StorageField {
    /// The name, unless the field is one of a tuple.
    pub name: Option<TokenStream>,
    /// The type.
    pub ty: TokenStream,
    /// How generated code reaches the field.
    pub accessor: Member,
    /// The struct can be borrowed as this field.
    pub borrow: bool,
}

/// What a [`StorageField`] is.
pub struct StorageFieldView {
    pub name: Option<Seq<Token>>,
    pub ty: Seq<Token>,
    pub accessor: Seq<Token>,
    pub borrow: bool,
}

impl View for StorageField {
    type V = StorageFieldView;

    open spec fn view(&self) -> StorageFieldView {
        StorageFieldView {
            name: optional_tokens(self.name),
            ty: tokens(self.ty),
            accessor: self.accessor@,
            borrow: self.borrow,
        }
    }
}

/// The words of the generated code.
proof fn lemma_words()
    ensures
        is_word("impl"@),
        is_word("const"@),
        is_word("fn"@),
        is_word("required_slots"@),
        is_word("usize"@),
        is_word("use"@),
        is_word("stylus_sdk"@),
        is_word("storage"@),
        is_word("let"@),
        is_word("mut"@),
        is_word("total"@),
        is_word("space"@),
        is_word("if"@),
        is_word("else"@),
        is_word("StorageType"@),
        is_word("H"@),
        is_word("for"@),
        is_word("type"@),
        is_word("Wraps"@),
        is_word("a"@),
        is_word("StorageGuard"@),
        is_word("where"@),
        is_word("Self"@),
        is_word("WrapsMut"@),
        is_word("StorageGuardMut"@),
        is_word("SLOT_BYTES"@),
        is_word("REQUIRED_SLOTS"@),
        is_word("unsafe"@),
        is_word("new"@),
        is_word("root"@),
        is_word("alloy_primitives"@),
        is_word("U256"@),
        is_word("offset"@),
        is_word("u8"@),
        is_word("host"@),
        is_word("Rc"@),
        is_word("debug_assert"@),
        is_word("slot"@),
        is_word("accessor"@),
        is_word("load"@),
        is_word("s"@),
        is_word("self"@),
        is_word("load_mut"@),
        is_word("bytes"@),
        is_word("words"@),
        is_word("as"@),
        is_word("from"@),
        is_word("clone"@),
        is_word("field"@),
        is_word("core"@),
        is_word("borrow"@),
        is_word("Borrow"@),
        is_word("BorrowMut"@),
        is_word("borrow_mut"@),
{
    reveal_strlit("impl");
    reveal_strlit("const");
    reveal_strlit("fn");
    reveal_strlit("required_slots");
    reveal_strlit("usize");
    reveal_strlit("use");
    reveal_strlit("stylus_sdk");
    reveal_strlit("storage");
    reveal_strlit("let");
    reveal_strlit("mut");
    reveal_strlit("total");
    reveal_strlit("space");
    reveal_strlit("if");
    reveal_strlit("else");
    reveal_strlit("StorageType");
    reveal_strlit("H");
    reveal_strlit("for");
    reveal_strlit("type");
    reveal_strlit("Wraps");
    reveal_strlit("a");
    reveal_strlit("StorageGuard");
    reveal_strlit("where");
    reveal_strlit("Self");
    reveal_strlit("WrapsMut");
    reveal_strlit("StorageGuardMut");
    reveal_strlit("SLOT_BYTES");
    reveal_strlit("REQUIRED_SLOTS");
    reveal_strlit("unsafe");
    reveal_strlit("new");
    reveal_strlit("root");
    reveal_strlit("alloy_primitives");
    reveal_strlit("U256");
    reveal_strlit("offset");
    reveal_strlit("u8");
    reveal_strlit("host");
    reveal_strlit("Rc");
    reveal_strlit("debug_assert");
    reveal_strlit("slot");
    reveal_strlit("accessor");
    reveal_strlit("load");
    reveal_strlit("s");
    reveal_strlit("self");
    reveal_strlit("load_mut");
    reveal_strlit("bytes");
    reveal_strlit("words");
    reveal_strlit("as");
    reveal_strlit("from");
    reveal_strlit("clone");
    reveal_strlit("field");
    reveal_strlit("core");
    reveal_strlit("borrow");
    reveal_strlit("Borrow");
    reveal_strlit("BorrowMut");
    reveal_strlit("borrow_mut");
}

/// `<ty as storage::StorageType<H>>::item`, with its last two angle brackets
/// joined or not: they are in code as it is quoted, and are not once it is
/// parsed.
pub open spec fn storage_item(ty: Seq<Token>, item: &'static str, joined: bool) -> Seq<Token> {
    Op('<').tokens() + ty + code(
        seq![Word("as"), Word("storage"), Sep, Word("StorageType"), Op('<'), Word("H")],
    ) + (if joined {
        Op2('>', '>').tokens()
    } else {
        code(seq![Op('>'), Op('>')])
    }) + code(seq![Sep, Word(item)])
}

/// Appends [`storage_item`].
fn push_storage_item(
    stream: &mut TokenStream,
    ty: &TokenStream,
    item: &'static str,
    joined: bool,
)
    requires
        is_word(item@),
    ensures
        tokens(*final(stream)) == tokens(*old(stream)) + storage_item(tokens(*ty), item, joined),
{
    proof {
        lemma_words();
    }
    push_part(stream, Op('<'));
    push_stream(stream, ty);
    push_code(
        stream,
        vec![Word("as"), Word("storage"), Sep, Word("StorageType"), Op('<'), Word("H")],
    );
    if joined {
        push_part(stream, Op2('>', '>'));
    } else {
        push_code(stream, vec![Op('>'), Op('>')]);
    }
    push_code(stream, vec![Sep, Word(item)]);
    assert(tokens(*stream) =~= tokens(*old(stream)) + storage_item(tokens(*ty), item, joined));
}

/// ```text
/// let bytes = <ty as storage::StorageType<H>>::SLOT_BYTES;
/// let words = <ty as storage::StorageType<H>>::REQUIRED_SLOTS;
/// ```
pub open spec fn measure(ty: Seq<Token>, joined: bool) -> Seq<Token> {
    code(seq![Word("let"), Word("bytes"), Op('=')]) + storage_item(ty, "SLOT_BYTES", joined)
        + code(seq![Op(';'), Word("let"), Word("words"), Op('=')]) + storage_item(
        ty,
        "REQUIRED_SLOTS",
        joined,
    ) + Op(';').tokens()
}

/// Writes [`measure`].
fn write_measure(ty: &TokenStream, joined: bool) -> (stream: TokenStream)
    ensures
        tokens(stream) == measure(tokens(*ty), joined),
{
    proof {
        lemma_words();
    }
    let mut stream = write_code(vec![Word("let"), Word("bytes"), Op('=')]);
    push_storage_item(&mut stream, ty, "SLOT_BYTES", joined);
    push_code(&mut stream, vec![Op(';'), Word("let"), Word("words"), Op('=')]);
    push_storage_item(&mut stream, ty, "REQUIRED_SLOTS", joined);
    push_part(&mut stream, Op(';'));
    stream
}

/// The code that counts the slots of a field:
/// ```text
/// let bytes = <ty as storage::StorageType<H>>::SLOT_BYTES;
/// let words = <ty as storage::StorageType<H>>::REQUIRED_SLOTS;
/// if words > 0 {
///     total += words;
///     space = 32;
/// } else {
///     if space < bytes {
///         space = 32;
///         total += 1;
///     }
///     space -= bytes;
/// }
/// ```
pub open spec fn size_code(ty: Seq<Token>, joined: bool) -> Seq<Token> {
    measure(ty, joined) + code(seq![Word("if"), Word("words"), Op('>'), Num(0)]) + braces(
        code(
            seq![
                Word("total"), Op2('+', '='), Word("words"), Op(';'),
                Word("space"), Op('='), Num(32), Op(';'),
            ],
        ),
    ) + Word("else").tokens() + braces(
        code(seq![Word("if"), Word("space"), Op('<'), Word("bytes")]) + braces(
            code(
                seq![
                    Word("space"), Op('='), Num(32), Op(';'),
                    Word("total"), Op2('+', '='), Num(1), Op(';'),
                ],
            ),
        ) + code(seq![Word("space"), Op2('-', '='), Word("bytes"), Op(';')]),
    )
}

/// The code that makes the accessor of a field, behind the name of the field:
/// ```text
/// {
///     let bytes = <ty as storage::StorageType<H>>::SLOT_BYTES;
///     let words = <ty as storage::StorageType<H>>::REQUIRED_SLOTS;
///     if space < bytes {
///         space = 32;
///         slot += 1;
///     }
///     space -= bytes;
///     let root = root + alloy_primitives::U256::from(slot);
///     let field = <ty as storage::StorageType<H>>::new(root, space as u8, Rc::clone(&self.host));
///     if words > 0 {
///         slot += words;
///         space = 32;
///     }
///     field
/// }
/// ```
pub open spec fn place_code(ty: Seq<Token>) -> Seq<Token> {
    braces(
        measure(ty, false) + code(seq![Word("if"), Word("space"), Op('<'), Word("bytes")]) + braces(
            code(
                seq![
                    Word("space"), Op('='), Num(32), Op(';'),
                    Word("slot"), Op2('+', '='), Num(1), Op(';'),
                ],
            ),
        ) + code(
            seq![
                Word("space"), Op2('-', '='), Word("bytes"), Op(';'),
                Word("let"), Word("root"), Op('='), Word("root"), Op('+'),
                Word("alloy_primitives"), Sep, Word("U256"), Sep, Word("from"),
            ],
        ) + parens(Word("slot").tokens()) + code(
            seq![Op(';'), Word("let"), Word("field"), Op('=')],
        ) + storage_item(ty, "new", false) + parens(
            code(
                seq![
                    Word("root"), Op(','), Word("space"), Word("as"), Word("u8"), Op(','),
                    Word("Rc"), Sep, Word("clone"),
                ],
            ) + parens(code(seq![Op('&'), Word("self"), Op('.'), Word("host")])),
        ) + code(seq![Op(';'), Word("if"), Word("words"), Op('>'), Num(0)]) + braces(
            code(
                seq![
                    Word("slot"), Op2('+', '='), Word("words"), Op(';'),
                    Word("space"), Op('='), Num(32), Op(';'),
                ],
            ),
        ) + Word("field").tokens(),
    )
}

/// The initializer of a field: its name, and the code that makes its accessor.
/// There is none for a field without a name.
pub open spec fn init_code(field: StorageFieldView) -> Option<Seq<Token>> {
    match field.name {
        Some(name) => Some(name + Op(':').tokens() + place_code(field.ty)),
        None => None,
    }
}

/// The code with which the struct can be borrowed as one of its fields:
/// ```text
/// impl core::borrow::Borrow<ty> for name {
///     fn borrow(&self) -> &ty {
///         &self.accessor
///     }
/// }
/// ```
pub open spec fn borrow_code(field: StorageFieldView, name: Seq<Token>) -> Seq<Token> {
    code(
        seq![
            Word("impl"), Word("core"), Sep, Word("borrow"), Sep, Word("Borrow"), Op('<'),
        ],
    ) + field.ty + code(seq![Op('>'), Word("for")]) + name + braces(
        code(seq![Word("fn"), Word("borrow")]) + parens(code(seq![Op('&'), Word("self")])) + code(
            seq![Op2('-', '>'), Op('&')],
        ) + field.ty + braces(
            code(seq![Op('&'), Word("self"), Op('.')]) + field.accessor,
        ),
    )
}

/// The same for a borrow that may change the field:
/// ```text
/// impl core::borrow::BorrowMut<ty> for name {
///     fn borrow_mut(&mut self) -> &mut ty {
///         &mut self.accessor
///     }
/// }
/// ```
pub open spec fn borrow_mut_code(field: StorageFieldView, name: Seq<Token>) -> Seq<Token> {
    code(
        seq![
            Word("impl"), Word("core"), Sep, Word("borrow"), Sep, Word("BorrowMut"), Op('<'),
        ],
    ) + field.ty + code(seq![Op('>'), Word("for")]) + name + braces(
        code(seq![Word("fn"), Word("borrow_mut")]) + parens(
            code(seq![Op('&'), Word("mut"), Word("self")]),
        ) + code(seq![Op2('-', '>'), Op('&'), Word("mut")]) + field.ty + braces(
            code(seq![Op('&'), Word("mut"), Word("self"), Op('.')]) + field.accessor,
        ),
    )
}

/// The storage field that the field at some place of a struct becomes.
pub open spec fn storage_field(index: int, field: StructFieldView) -> StorageFieldView {
    StorageFieldView {
        name: field.field.name,
        ty: field.field.ty.tokens,
        accessor: match field.field.name {
            Some(name) => name,
            None => seq![Token::Literal(decimal(index as nat))],
        },
        borrow: has_flag(field.attributes, "borrow"@),
    }
}

/// A field without the flag `borrow`.
pub open spec fn unflagged(field: StructFieldView) -> StructFieldView {
    StructFieldView { attributes: without_flag(field.attributes, "borrow"@), ..field }
}

/// A place in a tuple that generated code can name.
pub open spec fn is_member_index(index: int) -> bool {
    0 <= index < u32::MAX
}

impl StorageField {
    /// Reads a field of a struct, takes the flag `borrow` away from it, and
    /// reports a type that cannot be kept in storage.
    pub fn new(idx: usize, field: &mut StructField) -> (result: (StorageField, Option<Diagnostic>))
        requires
            old(field)@.field.ty.last() is Some,
            old(field)@.field.name is None ==> is_member_index(idx as int),
        ensures
            result.0@ == storage_field(idx as int, old(field)@),
            (match result.1 {
                Some(report) => Some(report@),
                None => None::<DiagnosticView>,
            }) == field_refusal(old(field)@.field),
            final(field)@ == unflagged(old(field)@),
    {
        let report = check_type(&field.field);
        let name = match &field.field.name {
            Some(name) => Some(name.clone()),
            None => None,
        };
        let ty = field.field.ty.tokens.clone();
        let accessor = match &field.field.name {
            Some(name) => Member::Named(name.clone()),
            None => Member::Unnamed(idx as u32),
        };
        let borrow = consume_flag(&mut field.attributes, "borrow");
        (StorageField { name, ty, accessor, borrow }, report)
    }

    /// The initializer of the field.
    pub fn init(&self) -> (stream: Option<TokenStream>)
        ensures
            optional_tokens(stream) == init_code(self@),
    {
        proof {
            lemma_words();
        }
        let name = match &self.name {
            Some(name) => name,
            None => return None,
        };
        let mut body = write_measure(&self.ty, false);
        push_code(&mut body, vec![Word("if"), Word("space"), Op('<'), Word("bytes")]);
        push_group(
            &mut body,
            Delimiter::Brace,
            write_code(
                vec![
                    Word("space"), Op('='), Num(32), Op(';'),
                    Word("slot"), Op2('+', '='), Num(1), Op(';'),
                ],
            ),
        );
        push_code(
            &mut body,
            vec![
                Word("space"), Op2('-', '='), Word("bytes"), Op(';'),
                Word("let"), Word("root"), Op('='), Word("root"), Op('+'),
                Word("alloy_primitives"), Sep, Word("U256"), Sep, Word("from"),
            ],
        );
        push_group(&mut body, Delimiter::Parenthesis, write_part(Word("slot")));
        push_code(&mut body, vec![Op(';'), Word("let"), Word("field"), Op('=')]);
        push_storage_item(&mut body, &self.ty, "new", false);
        let mut arguments = write_code(
            vec![
                Word("root"), Op(','), Word("space"), Word("as"), Word("u8"), Op(','),
                Word("Rc"), Sep, Word("clone"),
            ],
        );
        push_group(
            &mut arguments,
            Delimiter::Parenthesis,
            write_code(vec![Op('&'), Word("self"), Op('.'), Word("host")]),
        );
        push_group(&mut body, Delimiter::Parenthesis, arguments);
        push_code(&mut body, vec![Op(';'), Word("if"), Word("words"), Op('>'), Num(0)]);
        push_group(
            &mut body,
            Delimiter::Brace,
            write_code(
                vec![
                    Word("slot"), Op2('+', '='), Word("words"), Op(';'),
                    Word("space"), Op('='), Num(32), Op(';'),
                ],
            ),
        );
        push_part(&mut body, Word("field"));
        let mut stream = name.clone();
        push_part(&mut stream, Op(':'));
        push_group(&mut stream, Delimiter::Brace, body);
        Some(stream)
    }

    /// The code that counts the slots of the field, as it is quoted.
    pub fn size(&self) -> (stream: TokenStream)
        ensures
            tokens(stream) == size_code(self@.ty, true),
    {
        self.write_size(true)
    }

    /// Writes [`size_code`].
    fn write_size(&self, joined: bool) -> (stream: TokenStream)
        ensures
            tokens(stream) == size_code(self@.ty, joined),
    {
        proof {
            lemma_words();
        }
        let mut stream = write_measure(&self.ty, joined);
        push_code(&mut stream, vec![Word("if"), Word("words"), Op('>'), Num(0)]);
        push_group(
            &mut stream,
            Delimiter::Brace,
            write_code(
                vec![
                    Word("total"), Op2('+', '='), Word("words"), Op(';'),
                    Word("space"), Op('='), Num(32), Op(';'),
                ],
            ),
        );
        push_part(&mut stream, Word("else"));
        let mut packed = write_code(vec![Word("if"), Word("space"), Op('<'), Word("bytes")]);
        push_group(
            &mut packed,
            Delimiter::Brace,
            write_code(
                vec![
                    Word("space"), Op('='), Num(32), Op(';'),
                    Word("total"), Op2('+', '='), Num(1), Op(';'),
                ],
            ),
        );
        push_code(&mut packed, vec![Word("space"), Op2('-', '='), Word("bytes"), Op(';')]);
        push_group(&mut stream, Delimiter::Brace, packed);
        stream
    }

    /// Appends the accessor of the field.
    fn push_accessor(&self, stream: &mut TokenStream)
        ensures
            tokens(*final(stream)) == tokens(*old(stream)) + self@.accessor,
    {
        match &self.accessor {
            Member::Named(name) => push_stream(stream, name),
            Member::Unnamed(index) => {
                push_part(stream, Num(*index));
            },
        }
    }

    /// The implementation of `Borrow` for the struct of that name, if the
    /// field asks for it.
    pub fn impl_borrow(&self, name: &TokenStream) -> (stream: Option<TokenStream>)
        ensures
            optional_tokens(stream) == (if self.borrow {
                Some(borrow_code(self@, tokens(*name)))
            } else {
                None
            }),
    {
        proof {
            lemma_words();
        }
        if !self.borrow {
            return None;
        }
        let mut stream = write_code(
            vec![
                Word("impl"), Word("core"), Sep, Word("borrow"), Sep, Word("Borrow"), Op('<'),
            ],
        );
        push_stream(&mut stream, &self.ty);
        push_code(&mut stream, vec![Op('>'), Word("for")]);
        push_stream(&mut stream, name);
        let mut place = write_code(vec![Op('&'), Word("self"), Op('.')]);
        self.push_accessor(&mut place);
        let mut body = write_code(vec![Word("fn"), Word("borrow")]);
        push_group(
            &mut body,
            Delimiter::Parenthesis,
            write_code(vec![Op('&'), Word("self")]),
        );
        push_code(&mut body, vec![Op2('-', '>'), Op('&')]);
        push_stream(&mut body, &self.ty);
        push_group(&mut body, Delimiter::Brace, place);
        push_group(&mut stream, Delimiter::Brace, body);
        Some(stream)
    }

    /// The implementation of `BorrowMut` for the struct of that name, if the
    /// field asks for it.
    pub fn impl_borrow_mut(&self, name: &TokenStream) -> (stream: Option<TokenStream>)
        ensures
            optional_tokens(stream) == (if self.borrow {
                Some(borrow_mut_code(self@, tokens(*name)))
            } else {
                None
            }),
    {
        proof {
            lemma_words();
        }
        if !self.borrow {
            return None;
        }
        let mut stream = write_code(
            vec![
                Word("impl"), Word("core"), Sep, Word("borrow"), Sep, Word("BorrowMut"), Op('<'),
            ],
        );
        push_stream(&mut stream, &self.ty);
        push_code(&mut stream, vec![Op('>'), Word("for")]);
        push_stream(&mut stream, name);
        let mut place = write_code(vec![Op('&'), Word("mut"), Word("self"), Op('.')]);
        self.push_accessor(&mut place);
        let mut body = write_code(vec![Word("fn"), Word("borrow_mut")]);
        push_group(
            &mut body,
            Delimiter::Parenthesis,
            write_code(vec![Op('&'), Word("mut"), Word("self")]),
        );
        push_code(&mut body, vec![Op2('-', '>'), Op('&'), Word("mut")]);
        push_stream(&mut body, &self.ty);
        push_group(&mut body, Delimiter::Brace, place);
        push_group(&mut stream, Delimiter::Brace, body);
        Some(stream)
    }
}

/// What `#[storage]` reads from a struct.
#[derive(Debug)]
pub struct Storage {
    /// The name of the struct.
    pub name: TokenStream,
    /// Its generic parameters.
    pub generics: Generics,
    /// The fields that are kept in storage, in order.
    pub fields: Vec<StorageField>,
}

/// What a [`Storage`] is.
pub struct StorageView {
    pub name: Seq<Token>,
    pub generics: GenericsView,
    pub fields: Seq<StorageFieldView>,
}

/// What storage fields are, in order.
pub open spec fn field_views(fields: Seq<StorageField>) -> Seq<StorageFieldView> {
    fields.map_values(|field: StorageField| field@)
}

impl View for Storage {
    type V = StorageView;

    open spec fn view(&self) -> StorageView {
        StorageView {
            name: tokens(self.name),
            generics: self.generics@,
            fields: field_views(self.fields@),
        }
    }
}

/// The code that counts the slots of fields, one behind the other.
pub open spec fn sizes_code(fields: Seq<StorageFieldView>) -> Seq<Token>
    decreases fields.len(),
{
    if fields.len() == 0 {
        seq![]
    } else {
        sizes_code(fields.drop_last()) + size_code(fields.last().ty, false)
    }
}

/// The initializers of the fields that have one, each with a comma behind it.
pub open spec fn inits_code(fields: Seq<StorageFieldView>) -> Seq<Token>
    decreases fields.len(),
{
    if fields.len() == 0 {
        seq![]
    } else {
        match init_code(fields.last()) {
            Some(init) => inits_code(fields.drop_last()) + init + Op(',').tokens(),
            None => inits_code(fields.drop_last()),
        }
    }
}

/// The implementations of `Borrow` and `BorrowMut` for the fields that ask for
/// them.
pub open spec fn borrows_code(fields: Seq<StorageFieldView>, name: Seq<Token>) -> Seq<Token>
    decreases fields.len(),
{
    if fields.len() == 0 {
        seq![]
    } else if fields.last().borrow {
        borrows_code(fields.drop_last(), name) + borrow_code(fields.last(), name)
            + borrow_mut_code(fields.last(), name)
    } else {
        borrows_code(fields.drop_last(), name)
    }
}

/// Some field has an initializer.
pub open spec fn has_init(fields: Seq<StorageFieldView>) -> bool {
    exists|i: int| 0 <= i < fields.len() && (#[trigger] fields[i]).name is Some
}

/// The code that counts the slots of a struct:
/// ```text
/// impl impl_generics name ty_generics where_clause {
///     const fn required_slots() -> usize {
///         use stylus_sdk::storage;
///         let mut total: usize = 0;
///         let mut space: usize = 32;
///         (the code that counts the slots of each field)
///         if space != 32 || total == 0 {
///             total += 1;
///         }
///         total
///     }
/// }
/// ```
pub open spec fn slots_code(storage: StorageView) -> Seq<Token> {
    Word("impl").tokens() + storage.generics.impl_generics + storage.name
        + storage.generics.ty_generics + storage.generics.where_clause + braces(
        code(
            seq![
                Word("const"), Word("fn"), Word("required_slots"), Unit, Op2('-', '>'),
                Word("usize"),
            ],
        ) + braces(
            code(
                seq![
                    Word("use"), Word("stylus_sdk"), Sep, Word("storage"), Op(';'),
                    Word("let"), Word("mut"), Word("total"), Op(':'), Word("usize"), Op('='),
                    Num(0), Op(';'),
                    Word("let"), Word("mut"), Word("space"), Op(':'), Word("usize"), Op('='),
                    Num(32), Op(';'),
                ],
            ) + sizes_code(storage.fields) + code(
                seq![
                    Word("if"), Word("space"), Op2('!', '='), Num(32), Op2('|', '|'),
                    Word("total"), Op2('=', '='), Num(0),
                ],
            ) + braces(
                code(seq![Word("total"), Op2('+', '='), Num(1), Op(';')]),
            ) + Word("total").tokens(),
        ),
    )
}

/// ```text
/// type wraps<'a> = stylus_sdk::storage::guard<'a, Self> where Self: 'a;
/// ```
pub open spec fn wraps_code(wraps: &'static str, guard: &'static str) -> Seq<Token> {
    code(
        seq![
            Word("type"), Word(wraps), Op('<'), Life("a"), Op('>'), Op('='),
            Word("stylus_sdk"), Sep, Word("storage"), Sep, Word(guard),
            Op('<'), Life("a"), Op(','), Word("Self"), Op('>'),
            Word("where"), Word("Self"), Op(':'), Life("a"), Op(';'),
        ],
    )
}

/// ```text
/// fn load<'s>(self) -> Self::wraps<'s> {
///     stylus_sdk::storage::guard::new(self)
/// }
/// ```
pub open spec fn load_code(
    load: &'static str,
    wraps: &'static str,
    guard: &'static str,
) -> Seq<Token> {
    code(
        seq![Word("fn"), Word(load), Op('<'), Life("s"), Op('>')],
    ) + parens(Word("self").tokens()) + code(
        seq![Op2('-', '>'), Word("Self"), Sep, Word(wraps), Op('<'), Life("s"), Op('>')],
    ) + braces(
        code(
            seq![
                Word("stylus_sdk"), Sep, Word("storage"), Sep, Word(guard), Sep, Word("new"),
            ],
        ) + parens(Word("self").tokens()),
    )
}

/// The constructor:
/// ```text
/// unsafe fn new(mut root: stylus_sdk::alloy_primitives::U256, offset: u8, host: Rc<H>) -> Self {
///     use stylus_sdk::{storage, alloy_primitives};
///     debug_assert!(offset == 0);
///     let mut space: usize = 32;
///     let mut slot: usize = 0;
///     let accessor = Self {
///         (the initializers of the fields)
///         host,
///     };
///     accessor
/// }
/// ```
pub open spec fn new_code(fields: Seq<StorageFieldView>) -> Seq<Token> {
    code(seq![Word("unsafe"), Word("fn"), Word("new")]) + parens(
        code(
            seq![
                Word("mut"), Word("root"), Op(':'), Word("stylus_sdk"), Sep,
                Word("alloy_primitives"), Sep, Word("U256"), Op(','),
                Word("offset"), Op(':'), Word("u8"), Op(','),
                Word("host"), Op(':'), Word("Rc"), Op('<'), Word("H"), Op('>'),
            ],
        ),
    ) + code(seq![Op2('-', '>'), Word("Self")]) + braces(
        code(seq![Word("use"), Word("stylus_sdk"), Sep]) + braces(
            code(seq![Word("storage"), Op(','), Word("alloy_primitives")]),
        ) + code(seq![Op(';'), Word("debug_assert"), Op('!')]) + parens(
            code(seq![Word("offset"), Op2('=', '='), Num(0)]),
        ) + code(
            seq![
                Op(';'),
                Word("let"), Word("mut"), Word("space"), Op(':'), Word("usize"), Op('='),
                Num(32), Op(';'),
                Word("let"), Word("mut"), Word("slot"), Op(':'), Word("usize"), Op('='),
                Num(0), Op(';'),
                Word("let"), Word("accessor"), Op('='), Word("Self"),
            ],
        ) + braces(
            inits_code(fields) + code(seq![Word("host"), Op(',')]),
        ) + code(seq![Op(';'), Word("accessor")]),
    )
}

/// The implementation of `StorageType` for a struct:
/// ```text
/// impl impl_generics stylus_sdk::storage::StorageType<H> for name ty_generics where_clause {
///     type Wraps<'a> = stylus_sdk::storage::StorageGuard<'a, Self> where Self: 'a;
///     type WrapsMut<'a> = stylus_sdk::storage::StorageGuardMut<'a, Self> where Self: 'a;
///     const SLOT_BYTES: usize = 32;
///     const REQUIRED_SLOTS: usize = Self::required_slots();
///     (the constructor)
///     fn load<'s>(self) -> Self::Wraps<'s> { .. }
///     fn load_mut<'s>(self) -> Self::WrapsMut<'s> { .. }
/// }
/// ```
pub open spec fn storage_type_code(storage: StorageView) -> Seq<Token> {
    Word("impl").tokens() + storage.generics.impl_generics + code(
        seq![
            Word("stylus_sdk"), Sep, Word("storage"), Sep, Word("StorageType"), Op('<'),
            Word("H"), Op('>'), Word("for"),
        ],
    ) + storage.name + storage.generics.ty_generics + storage.generics.where_clause + braces(
        wraps_code("Wraps", "StorageGuard") + wraps_code("WrapsMut", "StorageGuardMut") + code(
            seq![
                Word("const"), Word("SLOT_BYTES"), Op(':'), Word("usize"), Op('='), Num(32),
                Op(';'),
                Word("const"), Word("REQUIRED_SLOTS"), Op(':'), Word("usize"), Op('='),
                Word("Self"), Sep, Word("required_slots"), Unit, Op(';'),
            ],
        ) + new_code(storage.fields) + load_code("load", "Wraps", "StorageGuard") + load_code(
            "load_mut",
            "WrapsMut",
            "StorageGuardMut",
        ),
    )
}

/// All the code that is generated for a struct.
pub open spec fn storage_code(storage: StorageView) -> Seq<Token> {
    slots_code(storage) + storage_type_code(storage) + borrows_code(storage.fields, storage.name)
}

impl Storage {
    /// The code that counts the slots of the fields.
    fn write_sizes(&self) -> (stream: TokenStream)
        ensures
            tokens(stream) == sizes_code(self@.fields),
    {
        let mut stream = TokenStream::new();
        let mut i: usize = 0;
        assert(self@.fields.take(0) =~= seq![]);
        while i < self.fields.len()
            invariant
                i <= self.fields.len(),
                tokens(stream) == sizes_code(self@.fields.take(i as int)),
            decreases self.fields.len() - i,
        {
            let size = self.fields[i].write_size(false);
            push_stream(&mut stream, &size);
            i = i + 1;
            assert(self@.fields.take(i as int).drop_last() =~= self@.fields.take(i - 1));
        }
        assert(self@.fields.take(i as int) =~= self@.fields);
        stream
    }

    /// The block with the code that counts the slots of the struct.
    pub fn item_impl(&self) -> (stream: TokenStream)
        ensures
            tokens(stream) == slots_code(self@),
    {
        proof {
            lemma_words();
        }
        let mut count = write_code(
            vec![
                Word("use"), Word("stylus_sdk"), Sep, Word("storage"), Op(';'),
                Word("let"), Word("mut"), Word("total"), Op(':'), Word("usize"), Op('='),
                Num(0), Op(';'),
                Word("let"), Word("mut"), Word("space"), Op(':'), Word("usize"), Op('='),
                Num(32), Op(';'),
            ],
        );
        let sizes = self.write_sizes();
        push_stream(&mut count, &sizes);
        push_code(
            &mut count,
            vec![
                Word("if"), Word("space"), Op2('!', '='), Num(32), Op2('|', '|'),
                Word("total"), Op2('=', '='), Num(0),
            ],
        );
        push_group(
            &mut count,
            Delimiter::Brace,
            write_code(vec![Word("total"), Op2('+', '='), Num(1), Op(';')]),
        );
        push_part(&mut count, Word("total"));
        let mut block = write_code(
            vec![
                Word("const"), Word("fn"), Word("required_slots"), Unit, Op2('-', '>'),
                Word("usize"),
            ],
        );
        push_group(&mut block, Delimiter::Brace, count);
        let mut stream = write_part(Word("impl"));
        push_stream(&mut stream, &self.generics.impl_generics);
        push_stream(&mut stream, &self.name);
        push_stream(&mut stream, &self.generics.ty_generics);
        push_stream(&mut stream, &self.generics.where_clause);
        push_group(&mut stream, Delimiter::Brace, block);
        stream
    }

    /// The initializers of the fields that have one, each with a comma behind
    /// it.
    fn write_inits(&self) -> (stream: TokenStream)
        ensures
            tokens(stream) == inits_code(self@.fields),
    {
        let mut stream = TokenStream::new();
        let mut i: usize = 0;
        assert(self@.fields.take(0) =~= seq![]);
        while i < self.fields.len()
            invariant
                i <= self.fields.len(),
                tokens(stream) == inits_code(self@.fields.take(i as int)),
            decreases self.fields.len() - i,
        {
            if let Some(init) = self.fields[i].init() {
                push_stream(&mut stream, &init);
                push_part(&mut stream, Op(','));
            }
            i = i + 1;
            assert(self@.fields.take(i as int).drop_last() =~= self@.fields.take(i - 1));
            assert(self@.fields.take(i as int).last() == self.fields[i - 1]@);
        }
        assert(self@.fields.take(i as int) =~= self@.fields);
        stream
    }

    /// The constructor of the struct.
    fn write_new(&self) -> (stream: TokenStream)
        ensures
            tokens(stream) == new_code(self@.fields),
    {
        proof {
            lemma_words();
        }
        let mut stream = write_code(vec![Word("unsafe"), Word("fn"), Word("new")]);
        push_group(
            &mut stream,
            Delimiter::Parenthesis,
            write_code(
                vec![
                    Word("mut"), Word("root"), Op(':'), Word("stylus_sdk"), Sep,
                    Word("alloy_primitives"), Sep, Word("U256"), Op(','),
                    Word("offset"), Op(':'), Word("u8"), Op(','),
                    Word("host"), Op(':'), Word("Rc"), Op('<'), Word("H"), Op('>'),
                ],
            ),
        );
        push_code(&mut stream, vec![Op2('-', '>'), Word("Self")]);
        let mut body = write_code(vec![Word("use"), Word("stylus_sdk"), Sep]);
        push_group(
            &mut body,
            Delimiter::Brace,
            write_code(vec![Word("storage"), Op(','), Word("alloy_primitives")]),
        );
        push_code(&mut body, vec![Op(';'), Word("debug_assert"), Op('!')]);
        push_group(
            &mut body,
            Delimiter::Parenthesis,
            write_code(vec![Word("offset"), Op2('=', '='), Num(0)]),
        );
        push_code(
            &mut body,
            vec![
                Op(';'),
                Word("let"), Word("mut"), Word("space"), Op(':'), Word("usize"), Op('='),
                Num(32), Op(';'),
                Word("let"), Word("mut"), Word("slot"), Op(':'), Word("usize"), Op('='),
                Num(0), Op(';'),
                Word("let"), Word("accessor"), Op('='), Word("Self"),
            ],
        );
        let mut inits = self.write_inits();
        push_code(&mut inits, vec![Word("host"), Op(',')]);
        push_group(&mut body, Delimiter::Brace, inits);
        push_code(&mut body, vec![Op(';'), Word("accessor")]);
        push_group(&mut stream, Delimiter::Brace, body);
        stream
    }

    /// Appends [`wraps_code`].
    fn push_wraps(stream: &mut TokenStream, wraps: &'static str, guard: &'static str)
        requires
            is_word(wraps@),
            is_word(guard@),
        ensures
            tokens(*final(stream)) == tokens(*old(stream)) + wraps_code(wraps, guard),
    {
        proof {
            lemma_words();
        }
        push_code(
            stream,
            vec![
                Word("type"), Word(wraps), Op('<'), Life("a"), Op('>'), Op('='),
                Word("stylus_sdk"), Sep, Word("storage"), Sep, Word(guard),
                Op('<'), Life("a"), Op(','), Word("Self"), Op('>'),
                Word("where"), Word("Self"), Op(':'), Life("a"), Op(';'),
            ],
        );
    }

    /// Writes [`load_code`].
    fn write_load(
        load: &'static str,
        wraps: &'static str,
        guard: &'static str,
    ) -> (stream: TokenStream)
        requires
            is_word(load@),
            is_word(wraps@),
            is_word(guard@),
        ensures
            tokens(stream) == load_code(load, wraps, guard),
    {
        proof {
            lemma_words();
        }
        let mut stream = write_code(
            vec![Word("fn"), Word(load), Op('<'), Life("s"), Op('>')],
        );
        push_group(&mut stream, Delimiter::Parenthesis, write_part(Word("self")));
        push_code(
            &mut stream,
            vec![Op2('-', '>'), Word("Self"), Sep, Word(wraps), Op('<'), Life("s"), Op('>')],
        );
        let mut body = write_code(
            vec![
                Word("stylus_sdk"), Sep, Word("storage"), Sep, Word(guard), Sep, Word("new"),
            ],
        );
        push_group(&mut body, Delimiter::Parenthesis, write_part(Word("self")));
        push_group(&mut stream, Delimiter::Brace, body);
        stream
    }

    /// The implementation of `StorageType` for the struct. Its constructor is
    /// well-formed only if some field has an initializer.
    pub fn impl_storage_type(&self) -> (stream: TokenStream)
        requires
            has_init(self@.fields),
        ensures
            tokens(stream) == storage_type_code(self@),
    {
        proof {
            lemma_words();
        }
        let mut stream = write_part(Word("impl"));
        push_stream(&mut stream, &self.generics.impl_generics);
        push_code(
            &mut stream,
            vec![
                Word("stylus_sdk"), Sep, Word("storage"), Sep, Word("StorageType"), Op('<'),
                Word("H"), Op('>'), Word("for"),
            ],
        );
        push_stream(&mut stream, &self.name);
        push_stream(&mut stream, &self.generics.ty_generics);
        push_stream(&mut stream, &self.generics.where_clause);
        let mut block = TokenStream::new();
        Self::push_wraps(&mut block, "Wraps", "StorageGuard");
        assert(tokens(block) =~= wraps_code("Wraps", "StorageGuard"));
        Self::push_wraps(&mut block, "WrapsMut", "StorageGuardMut");
        push_code(
            &mut block,
            vec![
                Word("const"), Word("SLOT_BYTES"), Op(':'), Word("usize"), Op('='), Num(32),
                Op(';'),
                Word("const"), Word("REQUIRED_SLOTS"), Op(':'), Word("usize"), Op('='),
                Word("Self"), Sep, Word("required_slots"), Unit, Op(';'),
            ],
        );
        let new = self.write_new();
        push_stream(&mut block, &new);
        let load = Self::write_load("load", "Wraps", "StorageGuard");
        push_stream(&mut block, &load);
        let load_mut = Self::write_load("load_mut", "WrapsMut", "StorageGuardMut");
        push_stream(&mut block, &load_mut);
        push_group(&mut stream, Delimiter::Brace, block);
        stream
    }

    /// Appends all the code that is generated for the struct.
    pub fn to_tokens(&self, stream: &mut TokenStream)
        requires
            has_init(self@.fields),
        ensures
            tokens(*final(stream)) == tokens(*old(stream)) + storage_code(self@),
    {
        let mut generated = self.item_impl();
        let storage_type = self.impl_storage_type();
        push_stream(&mut generated, &storage_type);
        let ghost impls = tokens(generated);
        let mut i: usize = 0;
        assert(self@.fields.take(0) =~= seq![]);
        while i < self.fields.len()
            invariant
                i <= self.fields.len(),
                tokens(generated) =~= impls + borrows_code(
                    self@.fields.take(i as int),
                    self@.name,
                ),
            decreases self.fields.len() - i,
        {
            if let Some(borrow) = self.fields[i].impl_borrow(&self.name) {
                push_stream(&mut generated, &borrow);
            }
            if let Some(borrow_mut) = self.fields[i].impl_borrow_mut(&self.name) {
                push_stream(&mut generated, &borrow_mut);
            }
            i = i + 1;
            assert(self@.fields.take(i as int).drop_last() =~= self@.fields.take(i - 1));
            assert(self@.fields.take(i as int).last() == self.fields[i - 1]@);
        }
        assert(self@.fields.take(i as int) =~= self@.fields);
        push_stream(stream, &generated);
    }
}

/// The fields of a struct whose type is a path, as storage fields.
pub open spec fn storage_fields(fields: Seq<StructFieldView>) -> Seq<StorageFieldView>
    decreases fields.len(),
{
    if fields.len() == 0 {
        seq![]
    } else if fields.last().field.ty.path is Some {
        storage_fields(fields.drop_last()).push(storage_field(fields.len() - 1, fields.last()))
    } else {
        storage_fields(fields.drop_last())
    }
}

/// The errors on fields whose type cannot be kept in storage, in order.
pub open spec fn refusals(fields: Seq<StructFieldView>) -> Seq<DiagnosticView>
    decreases fields.len(),
{
    if fields.len() == 0 {
        seq![]
    } else {
        match field_refusal(fields.last().field) {
            Some(report) => refusals(fields.drop_last()).push(report),
            None => refusals(fields.drop_last()),
        }
    }
}

/// A field whose flag `borrow` is taken away. A field whose type is not a path
/// is left as it is.
pub open spec fn consumed_field(field: StructFieldView) -> StructFieldView {
    if field.field.ty.path is Some {
        unflagged(field)
    } else {
        field
    }
}

/// A struct whose fields have lost the flag `borrow`.
pub open spec fn consumed(item: StructView) -> StructView {
    StructView {
        fields: item.fields.map_values(|field: StructFieldView| consumed_field(field)),
        ..item
    }
}

/// What `#[storage]` reads from a struct item.
pub open spec fn storage_of(item: StructView) -> StorageView {
    StorageView {
        name: item.name,
        generics: item.generics,
        fields: storage_fields(item.fields),
    }
}

/// The field can be read: its path has a segment, and generated code can name
/// its place if it has no name.
pub open spec fn is_readable(index: int, field: FieldView) -> bool {
    field.ty.last() is Some && (field.name is None ==> is_member_index(index))
}

/// Every field that is kept in storage can be read.
pub open spec fn readable(fields: Seq<StructFieldView>) -> bool {
    forall|i: int|
        0 <= i < fields.len() && (#[trigger] fields[i]).field.ty.path is Some ==> is_readable(
            i,
            fields[i].field,
        )
}

/// Some field that is kept in storage has a name.
pub open spec fn has_named(fields: Seq<StructFieldView>) -> bool {
    exists|i: int|
        0 <= i < fields.len() && (#[trigger] fields[i]).field.ty.path is Some
            && fields[i].field.name is Some
}

/// Code can be generated for a struct with these fields.
pub open spec fn expandable(fields: Seq<StructFieldView>) -> bool {
    readable(fields) && has_named(fields)
}

/// The attributes of a printed field but for the flag of that name.
pub open spec fn printed_without(attributes: Seq<AttributeSyntax>, flag: Seq<char>) -> Seq<
    AttributeSyntax,
> {
    attributes.filter(|attribute: AttributeSyntax| attribute.ident != Some(flag))
}

/// A struct item whose fields are printed without the flag `borrow`. A field
/// whose type is not a path is left as it is.
pub open spec fn printed(item: StructSyntax) -> StructSyntax {
    StructSyntax {
        fields: item.fields.map_values(
            |field: FieldSyntax|
                if field.ty.path is Some {
                    FieldSyntax {
                        attributes: printed_without(field.attributes, "borrow"@),
                        ..field
                    }
                } else {
                    field
                },
        ),
        ..item
    }
}

/// The code that `#[storage]` generates for a struct, and the errors on its
/// fields; the errors alone if no code can be generated for it.
pub open spec fn item_expansion(item: StructView) -> Result<ExpansionView, Seq<DiagnosticView>> {
    if expandable(item.fields) {
        Ok(
            ExpansionView {
                tokens: storage_code(storage_of(item)),
                diagnostics: refusals(item.fields),
            },
        )
    } else {
        Err(refusals(item.fields))
    }
}

/// What `#[storage]` makes of a struct item: the item without the flags that
/// belong to the macro, the generated code, and the errors on its fields; the
/// errors alone if no code can be generated for it.
pub open spec fn struct_expansion(item: StructSyntax) -> Result<
    ExpansionView,
    Seq<DiagnosticView>,
> {
    match item_expansion(item.read()) {
        Ok(expansion) => Ok(
            ExpansionView { tokens: printed(item).tokens() + expansion.tokens, ..expansion },
        ),
        Err(diagnostics) => Err(diagnostics),
    }
}

/// The error on arguments of the macro, which takes none.
pub open spec fn argument_reports(attr: Seq<Token>) -> Seq<DiagnosticView> {
    if attr.len() == 0 {
        seq![]
    } else {
        seq![DiagnosticView { at: attr, message: "this macro is not configurable"@ }]
    }
}

/// What `#[storage]` gives back for its arguments and for what its input
/// parses to. There are only errors for a struct that no code can be generated
/// for.
pub open spec fn storage_expansion(
    attr: Seq<Token>,
    parsed: Result<StructSyntax, Seq<Token>>,
) -> Result<ExpansionView, Seq<DiagnosticView>> {
    match parsed {
        Ok(item) => match struct_expansion(item) {
            Ok(expansion) => Ok(
                ExpansionView {
                    diagnostics: argument_reports(attr) + expansion.diagnostics,
                    ..expansion
                },
            ),
            Err(diagnostics) => Err(argument_reports(attr) + diagnostics),
        },
        Err(error) => Ok(
            ExpansionView { tokens: error, diagnostics: argument_reports(attr) },
        ),
    }
}

/// What an expansion is, or the errors that stand in its place.
pub open spec fn outcome(expansion: Result<Expansion, Vec<Diagnostic>>) -> Result<
    ExpansionView,
    Seq<DiagnosticView>,
> {
    match expansion {
        Ok(expansion) => Ok(expansion@),
        Err(diagnostics) => Err(reports(diagnostics@)),
    }
}

impl Storage {
    /// Reads a struct, takes the flags that belong to the macro away from its
    /// fields, and reports the fields whose type cannot be kept in storage.
    pub fn from(item: &mut StructItem) -> (result: (Storage, Vec<Diagnostic>))
        requires
            readable(old(item)@.fields),
        ensures
            result.0@ == storage_of(old(item)@),
            reports(result.1@) == refusals(old(item)@.fields),
            final(item)@ == consumed(old(item)@),
    {
        let ghost before = item@;
        let mut fields: Vec<StorageField> = Vec::new();
        let mut diagnostics: Vec<Diagnostic> = Vec::new();
        let mut i: usize = 0;
        proof {
            assert(before.fields.take(0) =~= seq![]);
            assert(field_views(fields@) =~= seq![]);
            assert(reports(diagnostics@) =~= seq![]);
        }
        while i < item.fields.len()
            invariant
                i <= item.fields.len(),
                readable(before.fields),
                item.fields.len() == before.fields.len(),
                tokens(item.name) == before.name,
                item.generics@ == before.generics,
                forall|j: int|
                    0 <= j < i ==> (#[trigger] item.fields[j])@ == consumed_field(
                        before.fields[j],
                    ),
                forall|j: int|
                    i <= j < before.fields.len() ==> (#[trigger] item.fields[j])@
                        == before.fields[j],
                field_views(fields@) == storage_fields(before.fields.take(i as int)),
                reports(diagnostics@) == refusals(before.fields.take(i as int)),
            decreases item.fields.len() - i,
        {
            let ghost known = before.fields.take(i + 1);
            let ghost old_fields = fields@;
            let ghost old_diagnostics = diagnostics@;
            assert(known.drop_last() =~= before.fields.take(i as int));
            assert(known.last() == before.fields[i as int]);
            assert(item.fields[i as int]@ == before.fields[i as int]);
            if item.fields[i].field.ty.path.is_some() {
                let (storage_field, report) = StorageField::new(i, &mut item.fields[i]);
                fields.push(storage_field);
                assert(field_views(fields@) =~= field_views(old_fields).push(storage_field@));
                if let Some(report) = report {
                    diagnostics.push(report);
                    assert(reports(diagnostics@) =~= reports(old_diagnostics).push(report@));
                }
            }
            i = i + 1;
        }
        proof {
            assert(before.fields.take(i as int) =~= before.fields);
            assert(item@.fields =~= consumed(before).fields);
        }
        (Storage { name: item.name.clone(), generics: item.generics.clone(), fields }, diagnostics)
    }
}

/// Tells whether code can be generated for a struct: it has a named field that
/// is kept in storage, and every such field can be read.
pub fn is_expandable(item: &StructItem) -> (possible: bool)
    ensures
        possible == expandable(item@.fields),
{
    let ghost fields = item@.fields;
    let mut named = false;
    let mut i: usize = 0;
    while i < item.fields.len()
        invariant
            i <= item.fields.len(),
            fields == item@.fields,
            forall|j: int|
                0 <= j < i && (#[trigger] fields[j]).field.ty.path is Some ==> is_readable(
                    j,
                    fields[j].field,
                ),
            named == exists|j: int|
                0 <= j < i && (#[trigger] fields[j]).field.ty.path is Some
                    && fields[j].field.name is Some,
        decreases item.fields.len() - i,
    {
        let field = &item.fields[i].field;
        assert(field@ == fields[i as int].field);
        if field.ty.path.is_some() {
            if field.ty.last().is_none() {
                return false;
            }
            if field.name.is_some() {
                named = true;
            } else if i >= u32::MAX as usize {
                return false;
            }
        }
        i = i + 1;
    }
    named
}

/// The storage fields of a struct have an initializer among them if a field
/// that is kept in storage has a name.
proof fn lemma_named_has_init(fields: Seq<StructFieldView>)
    ensures
        has_named(fields) ==> has_init(storage_fields(fields)),
    decreases fields.len(),
{
    if fields.len() > 0 {
        let fewer = fields.drop_last();
        lemma_named_has_init(fewer);
        if has_named(fields) {
            let i = choose|i: int|
                0 <= i < fields.len() && (#[trigger] fields[i]).field.ty.path is Some
                    && fields[i].field.name is Some;
            let all = storage_fields(fields);
            let some = storage_fields(fewer);
            if i < fields.len() - 1 {
                assert(fewer[i] == fields[i]);
                let j = choose|j: int| 0 <= j < some.len() && (#[trigger] some[j]).name is Some;
                assert(all[j] == some[j]);
            } else {
                assert(all[some.len() as int].name is Some);
            }
        }
    }
}

/// The attributes that are left once the flag is taken away are those that are
/// not the flag.
proof fn lemma_places_left(attributes: Seq<FieldAttributeView>, flag: Seq<char>, place: int)
    requires
        forall|i: int| 0 <= i < attributes.len() ==> (#[trigger] attributes[i]).place == i,
        0 <= place,
    ensures
        is_left(place, without_flag(attributes, flag)) == (place < attributes.len() && !is_flag(
            attributes[place],
            flag,
        )),
    decreases attributes.len(),
{
    if attributes.len() > 0 {
        let fewer = attributes.drop_last();
        let last = attributes.len() - 1;
        assert(attributes.last() == attributes[last]);
        assert forall|i: int| 0 <= i < fewer.len() implies (#[trigger] fewer[i]).place == i by {
            assert(fewer[i] == attributes[i]);
        }
        lemma_places_left(fewer, flag, place);
        let kept = without_flag(attributes, flag);
        let some = without_flag(fewer, flag);
        if place < last {
            assert(fewer[place] == attributes[place]);
        }
        if is_left(place, some) {
            let i = choose|i: int| 0 <= i < some.len() && (#[trigger] some[i]).place == place;
            assert(kept[i] == some[i]);
        }
        if !is_flag(attributes.last(), flag) {
            assert(kept[some.len() as int] == attributes.last());
        }
        if is_left(place, kept) {
            let i = choose|i: int| 0 <= i < kept.len() && (#[trigger] kept[i]).place == place;
            if i < some.len() {
                assert(some[i] == kept[i]);
            }
        }
    }
}

/// Printing the attributes of a field that are left once the flag is taken away
/// prints those that are not the flag.
proof fn lemma_left_without_flag(
    attributes: Seq<AttributeSyntax>,
    read: Seq<FieldAttributeView>,
    flag: Seq<char>,
)
    requires
        attributes.len() <= read.len(),
        forall|i: int| 0 <= i < read.len() ==> (#[trigger] read[i]).place == i,
        forall|i: int|
            0 <= i < attributes.len() ==> (#[trigger] read[i]).ident == attributes[i].ident,
    ensures
        left(attributes, without_flag(read, flag)) == printed_without(attributes, flag),
    decreases attributes.len(),
{
    reveal(Seq::filter);
    if attributes.len() > 0 {
        let fewer = attributes.drop_last();
        let last = attributes.len() - 1;
        assert forall|i: int| 0 <= i < fewer.len() implies (#[trigger] read[i]).ident
            == fewer[i].ident by {
            assert(fewer[i] == attributes[i]);
        }
        lemma_left_without_flag(fewer, read, flag);
        lemma_places_left(read, flag, last);
        assert(read[last].ident == attributes[last].ident);
    }
}

/// Printing all the attributes of a field that were read prints them all.
proof fn lemma_left_all(attributes: Seq<AttributeSyntax>, read: Seq<FieldAttributeView>)
    requires
        attributes.len() <= read.len(),
        forall|i: int| 0 <= i < read.len() ==> (#[trigger] read[i]).place == i,
    ensures
        left(attributes, read) == attributes,
    decreases attributes.len(),
{
    if attributes.len() > 0 {
        lemma_left_all(attributes.drop_last(), read);
        assert(read[attributes.len() - 1].place == attributes.len() - 1);
        assert(attributes.drop_last().push(attributes.last()) =~= attributes);
    } else {
        assert(left(attributes, read) =~= attributes);
    }
}

/// What is left of a struct item whose flags are taken away is printed without
/// them.
proof fn lemma_printed(item: StructSyntax)
    ensures
        item.with_left(consumed(item.read())) == printed(item),
{
    let read = item.read();
    let one = item.with_left(consumed(read)).fields;
    let other = printed(item).fields;
    assert forall|i: int| 0 <= i < item.fields.len() implies one[i] == other[i] by {
        let attributes = item.fields[i].attributes;
        assert(read.fields[i] == item.fields[i].read());
        assert(consumed(read).fields[i] == consumed_field(read.fields[i]));
        if item.fields[i].ty.path is Some {
            lemma_left_without_flag(attributes, read.fields[i].attributes, "borrow"@);
        } else {
            lemma_left_all(attributes, read.fields[i].attributes);
        }
    }
    assert(one =~= other);
}

/// The errors on the fields whose type cannot be kept in storage.
fn check_fields(item: &StructItem) -> (diagnostics: Vec<Diagnostic>)
    ensures
        reports(diagnostics@) == refusals(item@.fields),
{
    let ghost fields = item@.fields;
    let mut diagnostics: Vec<Diagnostic> = Vec::new();
    let mut i: usize = 0;
    assert(fields.take(0) =~= seq![]);
    assert(reports(diagnostics@) =~= seq![]);
    while i < item.fields.len()
        invariant
            i <= item.fields.len(),
            fields == item@.fields,
            reports(diagnostics@) == refusals(fields.take(i as int)),
        decreases item.fields.len() - i,
    {
        let ghost before = diagnostics@;
        let field = &item.fields[i].field;
        proof {
            assert(fields.take(i + 1).drop_last() =~= fields.take(i as int));
            assert(fields.take(i + 1).last().field == field@);
        }
        if field.ty.last().is_some() {
            if let Some(report) = check_type(field) {
                diagnostics.push(report);
                assert(reports(diagnostics@) =~= reports(before).push(report@));
            }
        }
        i = i + 1;
    }
    assert(fields.take(i as int) =~= fields);
    diagnostics
}

/// Generates the code for a struct, takes the flags that belong to the macro
/// away from its fields, and reports the fields whose type cannot be kept in
/// storage. There are only reports for a struct that no code can be generated
/// for, and such a struct stays as it is.
pub fn expand_item(item: &mut StructItem) -> (expansion: Result<Expansion, Vec<Diagnostic>>)
    ensures
        outcome(expansion) == item_expansion(old(item)@),
        final(item)@ == (if expandable(old(item)@.fields) {
            consumed(old(item)@)
        } else {
            old(item)@
        }),
{
    if !is_expandable(item) {
        return Err(check_fields(item));
    }
    proof {
        lemma_named_has_init(item@.fields);
    }
    let (storage, diagnostics) = Storage::from(item);
    let mut generated = TokenStream::new();
    storage.to_tokens(&mut generated);
    assert(tokens(generated) =~= storage_code(storage@));
    Ok(Expansion { tokens: generated, diagnostics })
}

/// What `#[storage]` does with a struct item, once it is parsed. There are only
/// errors for a struct that no code can be generated for: one without a named
/// field that is kept in storage.
pub fn expand_struct(item: syn::ItemStruct) -> (expansion: Result<Expansion, Vec<Diagnostic>>)
    ensures
        outcome(expansion) == struct_expansion(struct_syntax(item)),
{
    let mut read = StructItem::read(&item);
    let expansion = match expand_item(&mut read) {
        Ok(expansion) => expansion,
        Err(diagnostics) => return Err(diagnostics),
    };
    proof {
        lemma_printed(struct_syntax(item));
    }
    let mut output = print_left(item, &read);
    push_stream(&mut output, &expansion.tokens);
    Ok(Expansion { tokens: output, diagnostics: expansion.diagnostics })
}

/// Puts the second diagnostics behind the first.
fn append(first: Vec<Diagnostic>, second: Vec<Diagnostic>) -> (both: Vec<Diagnostic>)
    ensures
        reports(both@) == reports(first@) + reports(second@),
{
    let mut both = first;
    let mut second = second;
    let ghost before = both@;
    let ghost more = second@;
    both.append(&mut second);
    assert(reports(both@) =~= reports(before) + reports(more));
    both
}

/// The `#[storage]` macro, on its arguments and on the item that it stands on.
/// There are only errors for a struct that no code can be generated for: one
/// without a named field that is kept in storage.
pub fn storage(attr: TokenStream, input: TokenStream) -> (expansion: Result<
    Expansion,
    Vec<Diagnostic>,
>)
    ensures
        outcome(expansion) == storage_expansion(tokens(attr), parsed_struct(tokens(input))),
{
    let mut diagnostics: Vec<Diagnostic> = Vec::new();
    let ghost arguments = tokens(attr);
    assert(reports(diagnostics@) =~= seq![]);
    if !attr.is_empty() {
        let report = Diagnostic {
            at: attr,
            message: String::from_str("this macro is not configurable"),
        };
        diagnostics.push(report);
        assert(reports(diagnostics@) =~= seq![report@]);
    }
    assert(reports(diagnostics@) == argument_reports(arguments));
    let item = match parse_struct(input) {
        Ok(item) => item,
        Err(error) => return Ok(Expansion { tokens: error, diagnostics }),
    };
    match expand_struct(item) {
        Ok(expansion) => Ok(
            Expansion {
                tokens: expansion.tokens,
                diagnostics: append(diagnostics, expansion.diagnostics),
            },
        ),
        Err(more) => Err(append(diagnostics, more)),
    }
}

} // verus!
