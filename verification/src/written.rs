//! What generated code is, token by token.

use vstd::prelude::*;

use crate::solidity_error::{
    arm_code, bytes_code, derive_code, from_code, joined, DeriveView, VariantField,
};
use crate::steps::{lemma_code_both, lemma_code_one};
use crate::storage::{
    borrow_code, borrow_mut_code, borrows_code, init_code, inits_code, size_code, sizes_code,
    slots_code, storage_code, storage_type_code, StorageFieldView, StorageView,
};
use crate::syntax::{
    attribute_tokens, field_tokens, AttributeSyntax, FieldSyntax, StructSyntax,
};
use crate::text::{leads, occurs, trails};
use crate::tokens::Part::{Life, Num, Op, Op2, Sep, Unit, Word};
use crate::tokens::{
    braces, code, decimal, enclosed, mentions, parens, token_text, Delimiter, Part, Token,
};

verus! {

/// Pieces of code are written in order, each once, with nothing between them.
pub proof fn law_code_is_written_in_order(first: Seq<Part>, second: Seq<Part>, part: Part)
    ensures
        code(Seq::empty()) == Seq::<Token>::empty(),
        code(seq![part]) == part.tokens(),
        code(first + second) == code(first) + code(second),
{
    lemma_code_one(part);
    lemma_code_both(first, second);
}

/// What each piece of code is as tokens.
pub proof fn law_pieces_are_tokens(text: &'static str, c: char, d: char, n: u32)
    ensures
        Word(text).tokens() == seq![Token::Ident(text@)],
        Op(c).tokens() == seq![Token::Punct(c, false)],
        Op2(c, d).tokens() == seq![Token::Punct(c, true), Token::Punct(d, false)],
        Sep.tokens() == seq![Token::Punct(':', true), Token::Punct(':', false)],
        Life(text).tokens() == seq![Token::Punct('\'', true), Token::Ident(text@)],
        Num(n).tokens() == seq![Token::Literal(decimal(n as nat))],
        Unit.tokens() == seq![
            Token::Open(Delimiter::Parenthesis),
            Token::Close(Delimiter::Parenthesis),
        ],
{
    assert(Unit.tokens() =~= seq![
        Token::Open(Delimiter::Parenthesis),
        Token::Close(Delimiter::Parenthesis),
    ]);
}

/// A group is what it encloses, between its delimiters.
pub proof fn law_groups_enclose(delimiter: Delimiter, inner: Seq<Token>)
    ensures
        enclosed(delimiter, inner).len() == inner.len() + 2,
        enclosed(delimiter, inner).first() == Token::Open(delimiter),
        enclosed(delimiter, inner).last() == Token::Close(delimiter),
        enclosed(delimiter, inner).subrange(1, 1int + inner.len()) == inner,
        braces(inner) == enclosed(Delimiter::Brace, inner),
        parens(inner) == enclosed(Delimiter::Parenthesis, inner),
{
    assert(enclosed(delimiter, inner).subrange(1, 1int + inner.len()) =~= inner);
}

/// The number that decimal digits stand for.
pub open spec fn number(digits: Seq<char>) -> int
    decreases digits.len(),
{
    if digits.len() == 0 {
        0
    } else {
        10 * number(digits.drop_last()) + (digits.last() as int - '0' as int)
    }
}

/// A number is written in decimal digits that stand for it, without a zero in
/// front but for zero itself.
pub proof fn law_numbers_are_decimal(n: nat)
    ensures
        number(decimal(n)) == n,
        decimal(n).len() > 0,
        forall|i: int| 0 <= i < decimal(n).len() ==> '0' <= #[trigger] decimal(n)[i] <= '9',
        n > 0 ==> decimal(n)[0] != '0',
        n < 10 ==> decimal(n).len() == 1,
    decreases n,
{
    reveal_with_fuel(number, 2);
    if n < 10 {
        assert(decimal(n).drop_last() =~= Seq::empty());
    } else {
        law_numbers_are_decimal(n / 10);
        assert(decimal(n).drop_last() =~= decimal(n / 10));
        assert(decimal(n)[0] == decimal(n / 10)[0]);
        assert forall|i: int| 0 <= i < decimal(n).len() implies '0' <= #[trigger] decimal(n)[i]
            <= '9' by {
            if i < decimal(n / 10).len() {
                assert(decimal(n)[i] == decimal(n / 10)[i]);
            }
        }
    }
}

/// Sequences of tokens are put one behind the other: each is there once, in
/// order, with nothing between them.
pub proof fn law_sequences_are_joined_in_order(
    first: Seq<Seq<Token>>,
    second: Seq<Seq<Token>>,
    one: Seq<Token>,
)
    ensures
        joined(Seq::empty()) == Seq::<Token>::empty(),
        joined(seq![one]) == one,
        joined(first + second) == joined(first) + joined(second),
    decreases second.len(),
{
    reveal_with_fuel(joined, 2);
    assert(seq![one].drop_last() =~= Seq::empty());
    assert(joined(seq![one]) =~= one);
    if second.len() == 0 {
        assert(first + second =~= first);
        assert(joined(first) + joined(second) =~= joined(first));
    } else {
        let fewer = second.drop_last();
        law_sequences_are_joined_in_order(first, fewer, one);
        assert((first + second).drop_last() =~= first + fewer);
        assert(joined(first + second) =~= joined(first) + joined(second));
    }
}

/// Every sequence that is joined stands behind those before it and in front of
/// those after it.
pub(crate) proof fn lemma_joined_around(sequences: Seq<Seq<Token>>, i: int)
    requires
        0 <= i < sequences.len(),
    ensures
        joined(sequences) == joined(sequences.take(i)) + sequences[i] + joined(
            sequences.skip(i + 1),
        ),
{
    let one = seq![sequences[i]];
    law_sequences_are_joined_in_order(sequences.take(i), one, sequences[i]);
    law_sequences_are_joined_in_order(sequences.take(i) + one, sequences.skip(i + 1), sequences[i]);
    assert(sequences =~= sequences.take(i) + one + sequences.skip(i + 1));
}

/// A struct item is printed in order: what stands before its fields, each field
/// with its attributes in front and its comma behind, and what stands after.
pub proof fn law_items_are_printed_in_order(
    item: StructSyntax,
    first: Seq<FieldSyntax>,
    second: Seq<FieldSyntax>,
    field: FieldSyntax,
)
    ensures
        item.tokens() == item.head + field_tokens(item.fields) + item.tail,
        field_tokens(Seq::empty()) == Seq::<Token>::empty(),
        field_tokens(seq![field]) == attribute_tokens(field.attributes) + field.body + field.comma,
        field_tokens(first + second) == field_tokens(first) + field_tokens(second),
    decreases second.len(),
{
    reveal_with_fuel(field_tokens, 2);
    assert(seq![field].drop_last() =~= Seq::empty());
    assert(field_tokens(seq![field]) =~= attribute_tokens(field.attributes) + field.body
        + field.comma);
    if second.len() == 0 {
        assert(first + second =~= first);
        assert(field_tokens(first) + field_tokens(second) =~= field_tokens(first));
    } else {
        let fewer = second.drop_last();
        law_items_are_printed_in_order(item, first, fewer, field);
        assert((first + second).drop_last() =~= first + fewer);
        assert((first + second).last() == second.last());
        assert(field_tokens(first + second) =~= field_tokens(first) + field_tokens(second));
    }
}

/// Attributes are printed in order.
pub proof fn law_attributes_are_printed_in_order(
    first: Seq<AttributeSyntax>,
    second: Seq<AttributeSyntax>,
    attribute: AttributeSyntax,
)
    ensures
        attribute_tokens(Seq::empty()) == Seq::<Token>::empty(),
        attribute_tokens(seq![attribute]) == attribute.tokens,
        attribute_tokens(first + second) == attribute_tokens(first) + attribute_tokens(second),
    decreases second.len(),
{
    reveal_with_fuel(attribute_tokens, 2);
    assert(seq![attribute].drop_last() =~= Seq::empty());
    assert(attribute_tokens(seq![attribute]) =~= attribute.tokens);
    if second.len() == 0 {
        assert(first + second =~= first);
        assert(attribute_tokens(first) + attribute_tokens(second) =~= attribute_tokens(first));
    } else {
        let fewer = second.drop_last();
        law_attributes_are_printed_in_order(first, fewer, attribute);
        assert((first + second).drop_last() =~= first + fewer);
        assert((first + second).last() == second.last());
        assert(attribute_tokens(first + second) =~= attribute_tokens(first) + attribute_tokens(
            second,
        ));
    }
}

/// A text occurs in another, or leads or trails it, if the other is that text
/// with something around it, behind it or in front of it.
pub proof fn law_texts_are_found(text: Seq<char>, within: Seq<char>)
    ensures
        occurs(text, within) <==> exists|i: int|
            0 <= i <= within.len() - text.len() && within == #[trigger] within.take(i) + text
                + within.skip(i + text.len()),
        leads(text, within) <==> exists|rest: Seq<char>| within == #[trigger] (text + rest),
        trails(text, within) <==> exists|rest: Seq<char>| within == #[trigger] (rest + text),
{
    if occurs(text, within) {
        let i = choose|i: int|
            0 <= i <= within.len() - text.len() && #[trigger] within.subrange(i, i + text.len())
                == text;
        assert(within =~= within.take(i) + within.subrange(i, i + text.len()) + within.skip(
            i + text.len(),
        ));
    }
    if exists|i: int|
        0 <= i <= within.len() - text.len() && within == #[trigger] within.take(i) + text
            + within.skip(i + text.len()) {
        let i = choose|i: int|
            0 <= i <= within.len() - text.len() && within == #[trigger] within.take(i) + text
                + within.skip(i + text.len());
        assert((within.take(i) + text + within.skip(i + text.len())).subrange(i, i + text.len())
            =~= text);
    }
    if leads(text, within) {
        assert(within =~= text + within.skip(text.len() as int));
    }
    if exists|rest: Seq<char>| within == #[trigger] (text + rest) {
        let rest = choose|rest: Seq<char>| within == #[trigger] (text + rest);
        assert((text + rest).take(text.len() as int) =~= text);
    }
    if trails(text, within) {
        assert(within =~= within.take(within.len() - text.len()) + text);
    }
    if exists|rest: Seq<char>| within == #[trigger] (rest + text) {
        let rest = choose|rest: Seq<char>| within == #[trigger] (rest + text);
        assert((rest + text).skip(rest.len() as int) =~= text);
    }
}

/// Tokens mention a word if it occurs in the text of one identifier or literal
/// among them.
pub proof fn law_words_are_mentioned(stream: Seq<Token>, word: Seq<char>)
    requires
        word.len() > 0,
    ensures
        mentions(stream, word) <==> exists|i: int|
            0 <= i < stream.len() && match #[trigger] stream[i] {
                Token::Ident(text) => occurs(word, text),
                Token::Literal(text) => occurs(word, text),
                _ => false,
            },
{
    if mentions(stream, word) {
        let i = choose|i: int|
            0 <= i < stream.len() && occurs(word, token_text(#[trigger] stream[i]));
        assert(match stream[i] {
            Token::Ident(text) => occurs(word, text),
            Token::Literal(text) => occurs(word, text),
            _ => false,
        });
    }
    if exists|i: int|
        0 <= i < stream.len() && match #[trigger] stream[i] {
            Token::Ident(text) => occurs(word, text),
            Token::Literal(text) => occurs(word, text),
            _ => false,
        } {
        let i = choose|i: int|
            0 <= i < stream.len() && match #[trigger] stream[i] {
                Token::Ident(text) => occurs(word, text),
                Token::Literal(text) => occurs(word, text),
                _ => false,
            };
        assert(occurs(word, token_text(stream[i])));
    }
}

/// The code that counts the slots of a field asks its type for the bytes it has
/// in a slot and for the slots it requires. It adds the required slots and goes
/// on with a whole slot, or takes the bytes from the slot it is in, and from the
/// next if they do not fit.
pub proof fn law_size_is_written(ty: Seq<Token>, joined: bool)
    ensures
        ({
            let close = if joined {
                Op2('>', '>').tokens()
            } else {
                code(seq![Op('>'), Op('>')])
            };
            let asked = Op('<').tokens() + ty + code(
                seq![Word("as"), Word("storage"), Sep, Word("StorageType"), Op('<'), Word("H")],
            ) + close;
            size_code(ty, joined) == code(seq![Word("let"), Word("bytes"), Op('=')]) + asked
                + code(seq![Sep, Word("SLOT_BYTES")]) + code(
                seq![Op(';'), Word("let"), Word("words"), Op('=')],
            ) + asked + code(seq![Sep, Word("REQUIRED_SLOTS")]) + Op(';').tokens() + code(
                seq![Word("if"), Word("words"), Op('>'), Num(0)],
            ) + braces(
                code(
                    seq![
                        Word("total"), Op2('+', '='), Word("words"), Op(';'),
                        Word("space"), Op('='), Num(32), Op(';'),
                    ],
                ),
            ) + Word("else").tokens() + braces(
                code(seq![Word("if"), Word("space"), Op('<'), Word("bytes")]) + braces(
                    code(
                        seq![
                            Word("space"), Op('='), Num(32), Op(';'),
                            Word("total"), Op2('+', '='), Num(1), Op(';'),
                        ],
                    ),
                ) + code(seq![Word("space"), Op2('-', '='), Word("bytes"), Op(';')]),
            )
        }),
{
    let close = if joined {
        Op2('>', '>').tokens()
    } else {
        code(seq![Op('>'), Op('>')])
    };
    let asked = Op('<').tokens() + ty + code(
        seq![Word("as"), Word("storage"), Sep, Word("StorageType"), Op('<'), Word("H")],
    ) + close;
    let bytes = code(seq![Word("let"), Word("bytes"), Op('=')]);
    let slot_bytes = code(seq![Sep, Word("SLOT_BYTES")]);
    let words = code(seq![Op(';'), Word("let"), Word("words"), Op('=')]);
    let slots = code(seq![Sep, Word("REQUIRED_SLOTS")]);
    assert(bytes + (asked + slot_bytes) + words + (asked + slots) + Op(';').tokens() =~= bytes
        + asked + slot_bytes + words + asked + slots + Op(';').tokens());
}

/// The initializer of a field carries the name of the field. It asks the type of
/// the field for its sizes, goes on to the next slot if the bytes do not fit,
/// and makes an accessor for that type at the root and the slot, at the offset
/// that is left. A field without a name has none.
pub proof fn law_init_is_written(field: StorageFieldView)
    ensures
        field.name is None ==> init_code(field) is None,
        field.name is Some ==> init_code(field) is Some && ({
            let ty = field.ty;
            let asked = Op('<').tokens() + ty + code(
                seq![Word("as"), Word("storage"), Sep, Word("StorageType"), Op('<'), Word("H")],
            ) + code(seq![Op('>'), Op('>')]);
            init_code(field)->0 == field.name->0 + Op(':').tokens() + braces(
                code(seq![Word("let"), Word("bytes"), Op('=')]) + asked + code(
                    seq![Sep, Word("SLOT_BYTES")],
                ) + code(seq![Op(';'), Word("let"), Word("words"), Op('=')]) + asked + code(
                    seq![Sep, Word("REQUIRED_SLOTS")],
                ) + Op(';').tokens() + code(
                    seq![Word("if"), Word("space"), Op('<'), Word("bytes")],
                ) + braces(
                    code(
                        seq![
                            Word("space"), Op('='), Num(32), Op(';'),
                            Word("slot"), Op2('+', '='), Num(1), Op(';'),
                        ],
                    ),
                ) + code(
                    seq![
                        Word("space"), Op2('-', '='), Word("bytes"), Op(';'),
                        Word("let"), Word("root"), Op('='), Word("root"), Op('+'),
                        Word("alloy_primitives"), Sep, Word("U256"), Sep, Word("from"),
                    ],
                ) + parens(Word("slot").tokens()) + code(
                    seq![Op(';'), Word("let"), Word("field"), Op('=')],
                ) + asked + code(seq![Sep, Word("new")]) + parens(
                    code(
                        seq![
                            Word("root"), Op(','), Word("space"), Word("as"), Word("u8"), Op(','),
                            Word("Rc"), Sep, Word("clone"),
                        ],
                    ) + parens(code(seq![Op('&'), Word("self"), Op('.'), Word("host")])),
                ) + code(seq![Op(';'), Word("if"), Word("words"), Op('>'), Num(0)]) + braces(
                    code(
                        seq![
                            Word("slot"), Op2('+', '='), Word("words"), Op(';'),
                            Word("space"), Op('='), Num(32), Op(';'),
                        ],
                    ),
                ) + Word("field").tokens(),
            )
        }),
{
    let asked = Op('<').tokens() + field.ty + code(
        seq![Word("as"), Word("storage"), Sep, Word("StorageType"), Op('<'), Word("H")],
    ) + code(seq![Op('>'), Op('>')]);
    let bytes = code(seq![Word("let"), Word("bytes"), Op('=')]);
    let slot_bytes = code(seq![Sep, Word("SLOT_BYTES")]);
    let words = code(seq![Op(';'), Word("let"), Word("words"), Op('=')]);
    let slots = code(seq![Sep, Word("REQUIRED_SLOTS")]);
    let new = code(seq![Sep, Word("new")]);
    assert(bytes + (asked + slot_bytes) + words + (asked + slots) + Op(';').tokens() =~= bytes
        + asked + slot_bytes + words + asked + slots + Op(';').tokens());
    let front = bytes + asked + slot_bytes + words + asked + slots + Op(';').tokens() + code(
        seq![Word("if"), Word("space"), Op('<'), Word("bytes")],
    ) + braces(
        code(
            seq![
                Word("space"), Op('='), Num(32), Op(';'),
                Word("slot"), Op2('+', '='), Num(1), Op(';'),
            ],
        ),
    ) + code(
        seq![
            Word("space"), Op2('-', '='), Word("bytes"), Op(';'),
            Word("let"), Word("root"), Op('='), Word("root"), Op('+'),
            Word("alloy_primitives"), Sep, Word("U256"), Sep, Word("from"),
        ],
    ) + parens(Word("slot").tokens()) + code(seq![Op(';'), Word("let"), Word("field"), Op('=')]);
    assert(front + (asked + new) =~= front + asked + new);
}

/// The implementations of `Borrow` and `BorrowMut` for a field are for its type
/// and for the struct, and lead to the field itself.
pub proof fn law_borrow_is_written(field: StorageFieldView, name: Seq<Token>)
    ensures
        borrow_code(field, name) == code(
            seq![
                Word("impl"), Word("core"), Sep, Word("borrow"), Sep, Word("Borrow"), Op('<'),
            ],
        ) + field.ty + code(seq![Op('>'), Word("for")]) + name + braces(
            code(seq![Word("fn"), Word("borrow")]) + parens(
                code(seq![Op('&'), Word("self")]),
            ) + code(seq![Op2('-', '>'), Op('&')]) + field.ty + braces(
                code(seq![Op('&'), Word("self"), Op('.')]) + field.accessor,
            ),
        ),
        borrow_mut_code(field, name) == code(
            seq![
                Word("impl"), Word("core"), Sep, Word("borrow"), Sep, Word("BorrowMut"), Op('<'),
            ],
        ) + field.ty + code(seq![Op('>'), Word("for")]) + name + braces(
            code(seq![Word("fn"), Word("borrow_mut")]) + parens(
                code(seq![Op('&'), Word("mut"), Word("self")]),
            ) + code(seq![Op2('-', '>'), Op('&'), Word("mut")]) + field.ty + braces(
                code(seq![Op('&'), Word("mut"), Word("self"), Op('.')]) + field.accessor,
            ),
        ),
{
}

/// What is generated for fields is what is generated for each of them, in
/// order: the code that counts its slots, its initializer with a comma behind it
/// if it has one, and its two implementations if it is borrowed.
#[verifier::rlimit(40)]
pub proof fn law_fields_are_written_in_order(
    first: Seq<StorageFieldView>,
    second: Seq<StorageFieldView>,
    field: StorageFieldView,
    name: Seq<Token>,
)
    ensures
        sizes_code(Seq::empty()) == Seq::<Token>::empty(),
        sizes_code(seq![field]) == size_code(field.ty, false),
        sizes_code(first + second) == sizes_code(first) + sizes_code(second),
        inits_code(Seq::empty()) == Seq::<Token>::empty(),
        inits_code(seq![field]) == (match init_code(field) {
            Some(init) => init + Op(',').tokens(),
            None => Seq::empty(),
        }),
        inits_code(first + second) == inits_code(first) + inits_code(second),
        borrows_code(Seq::empty(), name) == Seq::<Token>::empty(),
        borrows_code(seq![field], name) == (if field.borrow {
            borrow_code(field, name) + borrow_mut_code(field, name)
        } else {
            Seq::empty()
        }),
        borrows_code(first + second, name) == borrows_code(first, name) + borrows_code(
            second,
            name,
        ),
    decreases second.len(),
{
    reveal_with_fuel(sizes_code, 2);
    reveal_with_fuel(inits_code, 2);
    reveal_with_fuel(borrows_code, 2);
    assert(seq![field].drop_last() =~= Seq::empty());
    assert(sizes_code(seq![field]) =~= size_code(field.ty, false));
    assert(inits_code(seq![field]) =~= (match init_code(field) {
        Some(init) => init + Op(',').tokens(),
        None => Seq::empty(),
    }));
    assert(borrows_code(seq![field], name) =~= (if field.borrow {
        borrow_code(field, name) + borrow_mut_code(field, name)
    } else {
        Seq::empty()
    }));
    if second.len() == 0 {
        assert(first + second =~= first);
        assert(sizes_code(first) + sizes_code(second) =~= sizes_code(first));
        assert(inits_code(first) + inits_code(second) =~= inits_code(first));
        assert(borrows_code(first, name) + borrows_code(second, name) =~= borrows_code(
            first,
            name,
        ));
    } else {
        let fewer = second.drop_last();
        law_fields_are_written_in_order(first, fewer, field, name);
        assert((first + second).drop_last() =~= first + fewer);
        assert((first + second).last() == second.last());
        assert(sizes_code(first + second) =~= sizes_code(first) + sizes_code(second));
        assert(inits_code(first + second) =~= inits_code(first) + inits_code(second));
        assert(borrows_code(first + second, name) =~= borrows_code(first, name) + borrows_code(
            second,
            name,
        ));
    }
}

/// The struct's own block stands in the generic scope of the struct, and holds
/// `required_slots`: it starts with no slots and a whole slot of space, counts
/// every field, and one slot more if the last is filled in part or none was
/// counted.
pub proof fn law_slots_are_written(storage: StorageView)
    ensures
        slots_code(storage) == Word("impl").tokens() + storage.generics.impl_generics
            + storage.name + storage.generics.ty_generics + storage.generics.where_clause + braces(
            code(
                seq![
                    Word("const"), Word("fn"), Word("required_slots"), Unit, Op2('-', '>'),
                    Word("usize"),
                ],
            ) + braces(
                code(
                    seq![
                        Word("use"), Word("stylus_sdk"), Sep, Word("storage"), Op(';'),
                        Word("let"), Word("mut"), Word("total"), Op(':'), Word("usize"), Op('='),
                        Num(0), Op(';'),
                        Word("let"), Word("mut"), Word("space"), Op(':'), Word("usize"), Op('='),
                        Num(32), Op(';'),
                    ],
                ) + sizes_code(storage.fields) + code(
                    seq![
                        Word("if"), Word("space"), Op2('!', '='), Num(32), Op2('|', '|'),
                        Word("total"), Op2('=', '='), Num(0),
                    ],
                ) + braces(
                    code(seq![Word("total"), Op2('+', '='), Num(1), Op(';')]),
                ) + Word("total").tokens(),
            ),
        ),
{
}

/// The implementation of `StorageType` stands in the generic scope of the struct,
/// like its own block: the parameters with their bounds behind `impl`, the
/// parameters alone behind the name, and then the `where` clause. It names the
/// guards, starts a new word, requires the slots that are counted, makes the
/// accessors of the fields, and loads both guards.
pub proof fn law_storage_type_is_written(storage: StorageView)
    ensures
        storage_type_code(storage) == Word("impl").tokens() + storage.generics.impl_generics + code(
            seq![
                Word("stylus_sdk"), Sep, Word("storage"), Sep, Word("StorageType"), Op('<'),
                Word("H"), Op('>'), Word("for"),
            ],
        ) + storage.name + storage.generics.ty_generics + storage.generics.where_clause + braces(
            code(
                seq![
                    Word("type"), Word("Wraps"), Op('<'), Life("a"), Op('>'), Op('='),
                    Word("stylus_sdk"), Sep, Word("storage"), Sep, Word("StorageGuard"),
                    Op('<'), Life("a"), Op(','), Word("Self"), Op('>'),
                    Word("where"), Word("Self"), Op(':'), Life("a"), Op(';'),
                ],
            ) + code(
                seq![
                    Word("type"), Word("WrapsMut"), Op('<'), Life("a"), Op('>'), Op('='),
                    Word("stylus_sdk"), Sep, Word("storage"), Sep, Word("StorageGuardMut"),
                    Op('<'), Life("a"), Op(','), Word("Self"), Op('>'),
                    Word("where"), Word("Self"), Op(':'), Life("a"), Op(';'),
                ],
            ) + code(
                seq![
                    Word("const"), Word("SLOT_BYTES"), Op(':'), Word("usize"), Op('='), Num(32),
                    Op(';'),
                    Word("const"), Word("REQUIRED_SLOTS"), Op(':'), Word("usize"), Op('='),
                    Word("Self"), Sep, Word("required_slots"), Unit, Op(';'),
                ],
            ) + (code(seq![Word("unsafe"), Word("fn"), Word("new")]) + parens(
                code(
                    seq![
                        Word("mut"), Word("root"), Op(':'), Word("stylus_sdk"), Sep,
                        Word("alloy_primitives"), Sep, Word("U256"), Op(','),
                        Word("offset"), Op(':'), Word("u8"), Op(','),
                        Word("host"), Op(':'), Word("Rc"), Op('<'), Word("H"), Op('>'),
                    ],
                ),
            ) + code(seq![Op2('-', '>'), Word("Self")]) + braces(
                code(seq![Word("use"), Word("stylus_sdk"), Sep]) + braces(
                    code(seq![Word("storage"), Op(','), Word("alloy_primitives")]),
                ) + code(seq![Op(';'), Word("debug_assert"), Op('!')]) + parens(
                    code(seq![Word("offset"), Op2('=', '='), Num(0)]),
                ) + code(
                    seq![
                        Op(';'),
                        Word("let"), Word("mut"), Word("space"), Op(':'), Word("usize"), Op('='),
                        Num(32), Op(';'),
                        Word("let"), Word("mut"), Word("slot"), Op(':'), Word("usize"), Op('='),
                        Num(0), Op(';'),
                        Word("let"), Word("accessor"), Op('='), Word("Self"),
                    ],
                ) + braces(
                    inits_code(storage.fields) + code(seq![Word("host"), Op(',')]),
                ) + code(seq![Op(';'), Word("accessor")]),
            )) + (code(
                seq![Word("fn"), Word("load"), Op('<'), Life("s"), Op('>')],
            ) + parens(Word("self").tokens()) + code(
                seq![
                    Op2('-', '>'), Word("Self"), Sep, Word("Wraps"), Op('<'), Life("s"), Op('>'),
                ],
            ) + braces(
                code(
                    seq![
                        Word("stylus_sdk"), Sep, Word("storage"), Sep, Word("StorageGuard"), Sep,
                        Word("new"),
                    ],
                ) + parens(Word("self").tokens()),
            )) + (code(
                seq![Word("fn"), Word("load_mut"), Op('<'), Life("s"), Op('>')],
            ) + parens(Word("self").tokens()) + code(
                seq![
                    Op2('-', '>'), Word("Self"), Sep, Word("WrapsMut"), Op('<'), Life("s"),
                    Op('>'),
                ],
            ) + braces(
                code(
                    seq![
                        Word("stylus_sdk"), Sep, Word("storage"), Sep, Word("StorageGuardMut"),
                        Sep, Word("new"),
                    ],
                ) + parens(Word("self").tokens()),
            )),
        ),
{
}

/// For a struct its own block is generated, then the implementation of
/// `StorageType`, then what lets it be borrowed as its fields.
pub proof fn law_storage_is_written(storage: StorageView)
    ensures
        storage_code(storage) == slots_code(storage) + storage_type_code(storage) + borrows_code(
            storage.fields,
            storage.name,
        ),
{
}

/// The conversion from the type of a variant makes that variant of the enum, and
/// its arm encodes what that variant of the enum holds.
pub proof fn law_variant_is_written(name: Seq<Token>, variant: VariantField)
    ensures
        from_code(name, variant) == code(
            seq![Word("impl"), Word("From"), Op('<')],
        ) + variant.1.ty.tokens + code(seq![Op('>'), Word("for")]) + name + braces(
            code(seq![Word("fn"), Word("from")]) + parens(
                code(seq![Word("value"), Op(':')]) + variant.1.ty.tokens,
            ) + code(seq![Op2('-', '>'), Word("Self")]) + braces(
                name + Sep.tokens() + variant.0 + parens(Word("value").tokens()),
            ),
        ),
        arm_code(name, variant) == name + Sep.tokens() + variant.0 + parens(Word("e").tokens())
            + code(
            seq![
                Op2('=', '>'), Word("stylus_sdk"), Sep, Word("call"), Sep, Word("MethodError"),
                Sep, Word("encode"),
            ],
        ) + parens(Word("e").tokens()) + Op(',').tokens(),
{
}

/// The conversion to bytes matches on the enum, and the match holds every arm,
/// each once and in order: any one of them stands behind all that come before it
/// and in front of all that come after it.
pub proof fn law_every_arm_is_written(name: Seq<Token>, arms: Seq<Seq<Token>>, i: int)
    ensures
        ({
            let written = if 0 <= i < arms.len() {
                joined(arms.take(i)) + arms[i] + joined(arms.skip(i + 1))
            } else {
                joined(arms)
            };
            bytes_code(name, arms) == code(seq![Word("impl"), Word("From"), Op('<')]) + name + code(
                seq![
                    Op('>'), Word("for"), Word("alloc"), Sep, Word("vec"), Sep, Word("Vec"),
                    Op('<'), Word("u8"), Op('>'),
                ],
            ) + braces(
                code(seq![Word("fn"), Word("from")]) + parens(
                    code(seq![Word("err"), Op(':')]) + name,
                ) + code(seq![Op2('-', '>'), Word("Self")]) + braces(
                    code(seq![Word("match"), Word("err")]) + braces(written),
                ),
            )
        }),
{
    if 0 <= i < arms.len() {
        lemma_joined_around(arms, i);
    }
}

/// For an enum every conversion from a type is generated, in order, and then the
/// conversion to bytes with every arm.
pub proof fn law_derive_is_written(derive: DeriveView)
    ensures
        derive_code(derive) == joined(derive.from_impls) + bytes_code(
            derive.name,
            derive.match_arms,
        ),
{
}

} // verus!
