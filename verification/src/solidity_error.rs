//! The `#[derive(SolidityError)]` macro: conversions between the errors of a
//! contract and the bytes that a call gives back for them.

use proc_macro2::TokenStream;
use vstd::hash_map::StringHashMap;
use vstd::prelude::*;

use crate::diagnostics::{reports, Diagnostic, DiagnosticView, Expansion, ExpansionView};
use crate::syntax::{
    parse_enum, parsed_enum, AttributeView, EnumItem, EnumView, Field, FieldView, Fields,
    FieldsView, Type, TypeView, Variant, VariantView,
};
use crate::text::{ends, has, leads, same, starts, trails};
use crate::tokens::Part::{Op, Op2, Sep, Word};
use crate::tokens::{
    braces, code, is_capitalized, is_word, mentions, parens, print, push_code, push_group,
    push_part, push_stream, tokens, write_code, write_part, Delimiter, Token,
};

verus! {

/// An item that may be kept track of.
pub enum Item {
    /// An enum.
    Enum(EnumItem),
    /// Any other item.
    Other(TokenStream),
}

/// What the derive macro gathers about an enum. `E` is an extension that may
/// add to the generated code.
pub struct DeriveSolidityError<E = ()> {
    /// The name of the enum.
    pub name: TokenStream,
    /// The conversions from the types of the variants.
    pub from_impls: Vec<TokenStream>,
    /// The arms of the conversion to bytes.
    pub match_arms: Vec<TokenStream>,
    /// The extension.
    pub _ext: E,
    /// The enums that are known, by their names.
    pub seen_items: StringHashMap<EnumItem>,
    /// The variants that are left to process, with their fields.
    pub variants_to_process: Vec<(TokenStream, Field)>,
    /// The errors to report, in order.
    pub diagnostics: Vec<Diagnostic>,
}

/// A variant with a single field: its name, and the field.
pub type VariantField = (Seq<Token>, FieldView);

/// What a [`DeriveSolidityError`] is.
pub struct DeriveView {
    pub name: Seq<Token>,
    pub from_impls: Seq<Seq<Token>>,
    pub match_arms: Seq<Seq<Token>>,
    pub seen_items: Map<Seq<char>, EnumView>,
    pub variants_to_process: Seq<VariantField>,
    pub diagnostics: Seq<DiagnosticView>,
}

/// The tokens of streams, in order.
pub open spec fn stream_views(streams: Seq<TokenStream>) -> Seq<Seq<Token>> {
    streams.map_values(|stream: TokenStream| tokens(stream))
}

/// What known enums are, by their names.
pub open spec fn item_views(items: Map<Seq<char>, EnumItem>) -> Map<Seq<char>, EnumView> {
    items.map_values(|item: EnumItem| item@)
}

/// What variants that are left to process are, in order.
pub open spec fn pending_views(pending: Seq<(TokenStream, Field)>) -> Seq<VariantField> {
    pending.map_values(|variant: (TokenStream, Field)| (tokens(variant.0), variant.1@))
}

impl<E> View for DeriveSolidityError<E> {
    type V = DeriveView;

    open spec fn view(&self) -> DeriveView {
        DeriveView {
            name: tokens(self.name),
            from_impls: stream_views(self.from_impls@),
            match_arms: stream_views(self.match_arms@),
            seen_items: item_views(self.seen_items@),
            variants_to_process: pending_views(self.variants_to_process@),
            diagnostics: reports(self.diagnostics@),
        }
    }
}

/// An extension of the derive macro.
pub trait SolidityErrorExtension: Default {
    /// Takes note of the field of a variant.
    fn add_variant(&mut self, field: Field);

    /// The code that the extension adds.
    fn codegen(err: &DeriveSolidityError<Self>) -> TokenStream;
}

/// No extension: nothing is noted, and no code is added.
impl SolidityErrorExtension for () {
    fn add_variant(&mut self, _field: Field)
        ensures
            *final(self) == *old(self),
    {
    }

    fn codegen(_err: &DeriveSolidityError<Self>) -> (ast: TokenStream)
        ensures
            tokens(ast) == Seq::<Token>::empty(),
    {
        TokenStream::new()
    }
}

/// The words of the generated code.
proof fn lemma_words()
    ensures
        is_word("impl"@),
        is_word("From"@),
        is_word("for"@),
        is_word("fn"@),
        is_word("from"@),
        is_word("value"@),
        is_word("Self"@),
        is_word("e"@),
        is_word("stylus_sdk"@),
        is_word("call"@),
        is_word("MethodError"@),
        is_word("encode"@),
        is_word("alloc"@),
        is_word("vec"@),
        is_word("Vec"@),
        is_word("u8"@),
        is_word("err"@),
        is_word("match"@),
{
    reveal_strlit("impl");
    reveal_strlit("From");
    reveal_strlit("for");
    reveal_strlit("fn");
    reveal_strlit("from");
    reveal_strlit("value");
    reveal_strlit("Self");
    reveal_strlit("e");
    reveal_strlit("stylus_sdk");
    reveal_strlit("call");
    reveal_strlit("MethodError");
    reveal_strlit("encode");
    reveal_strlit("alloc");
    reveal_strlit("vec");
    reveal_strlit("Vec");
    reveal_strlit("u8");
    reveal_strlit("err");
    reveal_strlit("match");
}

/// The conversion from the type of a variant:
/// ```text
/// impl From<ty> for name {
///     fn from(value: ty) -> Self {
///         name::variant(value)
///     }
/// }
/// ```
pub open spec fn from_code(name: Seq<Token>, variant: VariantField) -> Seq<Token> {
    let ty = variant.1.ty.tokens;
    code(seq![Word("impl"), Word("From"), Op('<')]) + ty + code(
        seq![Op('>'), Word("for")],
    ) + name + braces(
        code(seq![Word("fn"), Word("from")]) + parens(
            code(seq![Word("value"), Op(':')]) + ty,
        ) + code(seq![Op2('-', '>'), Word("Self")]) + braces(
            name + Sep.tokens() + variant.0 + parens(Word("value").tokens()),
        ),
    )
}

/// The arm of a variant in the conversion to bytes:
/// ```text
/// name::variant(e) => stylus_sdk::call::MethodError::encode(e),
/// ```
pub open spec fn arm_code(name: Seq<Token>, variant: VariantField) -> Seq<Token> {
    name + Sep.tokens() + variant.0 + parens(Word("e").tokens()) + code(
        seq![
            Op2('=', '>'), Word("stylus_sdk"), Sep, Word("call"), Sep, Word("MethodError"), Sep,
            Word("encode"),
        ],
    ) + parens(Word("e").tokens()) + Op(',').tokens()
}

/// Token sequences, one behind the other.
pub open spec fn joined(sequences: Seq<Seq<Token>>) -> Seq<Token>
    decreases sequences.len(),
{
    if sequences.len() == 0 {
        seq![]
    } else {
        joined(sequences.drop_last()) + sequences.last()
    }
}

/// The conversion to bytes:
/// ```text
/// impl From<name> for alloc::vec::Vec<u8> {
///     fn from(err: name) -> Self {
///         match err {
///             (the arms)
///         }
///     }
/// }
/// ```
pub open spec fn bytes_code(name: Seq<Token>, match_arms: Seq<Seq<Token>>) -> Seq<Token> {
    code(seq![Word("impl"), Word("From"), Op('<')]) + name + code(
        seq![
            Op('>'), Word("for"), Word("alloc"), Sep, Word("vec"), Sep, Word("Vec"), Op('<'),
            Word("u8"), Op('>'),
        ],
    ) + braces(
        code(seq![Word("fn"), Word("from")]) + parens(
            code(seq![Word("err"), Op(':')]) + name,
        ) + code(seq![Op2('-', '>'), Word("Self")]) + braces(
            code(seq![Word("match"), Word("err")]) + braces(joined(match_arms)),
        ),
    )
}

/// All the code that is generated for an enum.
pub open spec fn derive_code(derive: DeriveView) -> Seq<Token> {
    joined(derive.from_impls) + bytes_code(derive.name, derive.match_arms)
}

/// The attribute is a `derive` whose list mentions `SolidityError`.
pub open spec fn derives_solidity_error(attribute: AttributeView) -> bool {
    &&& attribute.ident == Some("derive"@)
    &&& attribute.list matches Some(list)
    &&& mentions(list, "SolidityError"@)
}

/// One of the attributes of the enum derives `SolidityError`.
pub open spec fn is_derived(item: EnumView) -> bool {
    exists|i: int|
        0 <= i < item.attributes.len() && derives_solidity_error(#[trigger] item.attributes[i])
}

/// The type counts as an enum. A type that is known does if it derives
/// `SolidityError`; one that is not known does if it is named like an error,
/// but not like an error of the user's own.
pub open spec fn is_enum(seen: Map<Seq<char>, EnumView>, ty: TypeView) -> bool {
    match ty.last() {
        Some(last) => last.bare && (if seen.contains_key(last.ident) {
            is_derived(seen[last.ident])
        } else {
            trails("Error"@, last.ident) && !leads("My"@, last.ident)
        }),
        None => false,
    }
}

/// The field of a variant, if the variant is a tuple of one.
pub open spec fn single_field(variant: VariantView) -> Option<FieldView> {
    match variant.fields {
        FieldsView::Unnamed(fields) => if fields.len() == 1 {
            Some(fields[0])
        } else {
            None
        },
        _ => None,
    }
}

/// The known enum that a variant holds, if its type counts as an enum.
pub open spec fn held(seen: Map<Seq<char>, EnumView>, variant: VariantView) -> Option<EnumView> {
    match single_field(variant) {
        Some(field) => match field.ty.last() {
            Some(last) => if is_enum(seen, field.ty) && seen.contains_key(last.ident) {
                Some(seen[last.ident])
            } else {
                None
            },
            None => None,
        },
        None => None,
    }
}

/// Variants hold known enums, those hold others, and so on, at most `depth`
/// deep.
pub open spec fn bounded(
    seen: Map<Seq<char>, EnumView>,
    variants: Seq<VariantView>,
    depth: nat,
) -> bool
    decreases depth,
{
    forall|i: int|
        0 <= i < variants.len() && held(seen, #[trigger] variants[i]) is Some ==> depth > 0
            && bounded(seen, held(seen, variants[i])->0.variants, (depth - 1) as nat)
}

/// The known enum whose variants take the place of a variant, if there is one.
/// It is the one that the variant holds, unless that leads back to an enum that
/// holds itself: then it holds enums deeper than there are known ones.
pub open spec fn nested(seen: Map<Seq<char>, EnumView>, variant: VariantView) -> Option<EnumView> {
    match held(seen, variant) {
        Some(inner) => if bounded(seen, inner.variants, seen.len()) {
            Some(inner)
        } else {
            None
        },
        None => None,
    }
}

/// The error on a variant that is not a tuple of one.
pub open spec fn variant_error(variant: VariantView) -> DiagnosticView {
    DiagnosticView {
        at: match variant.fields {
            FieldsView::Unit => variant.tokens,
            _ => variant.fields_tokens,
        },
        message: "variant not a 1-tuple"@,
    }
}

/// What is gathered from variants: those to process, and the errors to report.
pub struct Collected {
    pub variants: Seq<VariantField>,
    pub diagnostics: Seq<DiagnosticView>,
}

impl Collected {
    /// What is gathered first, and what is gathered after it.
    pub open spec fn and(self, other: Collected) -> Collected {
        Collected {
            variants: self.variants + other.variants,
            diagnostics: self.diagnostics + other.diagnostics,
        }
    }
}

/// Nothing is gathered.
pub open spec fn nothing() -> Collected {
    Collected { variants: seq![], diagnostics: seq![] }
}

/// What is gathered from a variant that no enum takes the place of.
pub open spec fn own(variant: VariantView) -> Collected {
    match single_field(variant) {
        Some(field) => Collected { variants: seq![(variant.name, field)], diagnostics: seq![] },
        None => Collected { variants: seq![], diagnostics: seq![variant_error(variant)] },
    }
}

/// Enums take the place of variants at most `depth` deep.
pub open spec fn shallow(
    seen: Map<Seq<char>, EnumView>,
    variants: Seq<VariantView>,
    depth: nat,
) -> bool {
    forall|i: int|
        0 <= i < variants.len() && nested(seen, #[trigger] variants[i]) is Some ==> depth > 0
            && bounded(seen, nested(seen, variants[i])->0.variants, (depth - 1) as nat)
}

/// What is gathered from variants of which enums take the place at most `depth`
/// deep, in order, with the variants of a nested enum in the place of the
/// variant that holds it.
pub open spec fn collected_within(
    seen: Map<Seq<char>, EnumView>,
    variants: Seq<VariantView>,
    depth: nat,
) -> Collected
    decreases depth, variants.len(),
{
    if variants.len() == 0 {
        nothing()
    } else {
        let before = collected_within(seen, variants.drop_last(), depth);
        match nested(seen, variants.last()) {
            Some(inner) => if depth > 0 {
                before.and(collected_within(seen, inner.variants, (depth - 1) as nat))
            } else {
                before
            },
            None => before.and(own(variants.last())),
        }
    }
}

/// What is gathered from variants.
pub open spec fn collected(
    seen: Map<Seq<char>, EnumView>,
    variants: Seq<VariantView>,
) -> Collected {
    collected_within(seen, variants, seen.len() + 1)
}

/// Where known enums are held at most so deep, they take the place of variants
/// at most so deep.
pub(crate) proof fn lemma_bounded_is_shallow(
    seen: Map<Seq<char>, EnumView>,
    variants: Seq<VariantView>,
    depth: nat,
)
    requires
        bounded(seen, variants, depth),
    ensures
        shallow(seen, variants, depth),
{
    assert forall|i: int|
        0 <= i < variants.len() && nested(seen, #[trigger] variants[i]) is Some implies depth > 0
        && bounded(seen, nested(seen, variants[i])->0.variants, (depth - 1) as nat) by {
        assert(held(seen, variants[i]) is Some);
    }
}

/// What is gathered does not depend on the bound on the depth.
pub(crate) proof fn lemma_depth_free(
    seen: Map<Seq<char>, EnumView>,
    variants: Seq<VariantView>,
    one: nat,
    other: nat,
)
    requires
        shallow(seen, variants, one),
        shallow(seen, variants, other),
    ensures
        collected_within(seen, variants, one) == collected_within(seen, variants, other),
    decreases one, variants.len(),
{
    if variants.len() > 0 {
        let fewer = variants.drop_last();
        assert forall|i: int|
            0 <= i < fewer.len() && nested(seen, #[trigger] fewer[i]) is Some implies one > 0
            && bounded(seen, nested(seen, fewer[i])->0.variants, (one - 1) as nat) && other > 0
            && bounded(seen, nested(seen, fewer[i])->0.variants, (other - 1) as nat) by {
            assert(fewer[i] == variants[i]);
        }
        lemma_depth_free(seen, fewer, one, other);
        assert(variants[variants.len() - 1] == variants.last());
        if nested(seen, variants.last()) is Some {
            let inner = nested(seen, variants.last())->0.variants;
            lemma_bounded_is_shallow(seen, inner, (one - 1) as nat);
            lemma_bounded_is_shallow(seen, inner, (other - 1) as nat);
            lemma_depth_free(seen, inner, (one - 1) as nat, (other - 1) as nat);
        }
    }
}

/// An enum that holds itself is not nested.
pub(crate) proof fn lemma_holds_itself(
    seen: Map<Seq<char>, EnumView>,
    item: EnumView,
    i: int,
    depth: nat,
)
    requires
        0 <= i < item.variants.len(),
        held(seen, item.variants[i]) == Some(item),
    ensures
        !bounded(seen, item.variants, depth),
    decreases depth,
{
    if bounded(seen, item.variants, depth) {
        lemma_holds_itself(seen, item, i, (depth - 1) as nat);
    }
}

/// The fields of the variants that are tuples of one, in order.
pub open spec fn singles(variants: Seq<VariantView>) -> Seq<VariantField>
    decreases variants.len(),
{
    if variants.len() == 0 {
        seq![]
    } else {
        match single_field(variants.last()) {
            Some(field) => singles(variants.drop_last()).push((variants.last().name, field)),
            None => singles(variants.drop_last()),
        }
    }
}

/// The errors on the variants that are not tuples of one, in order.
pub open spec fn variant_errors(variants: Seq<VariantView>) -> Seq<DiagnosticView>
    decreases variants.len(),
{
    if variants.len() == 0 {
        seq![]
    } else {
        match single_field(variants.last()) {
            Some(field) => variant_errors(variants.drop_last()),
            None => variant_errors(variants.drop_last()).push(variant_error(variants.last())),
        }
    }
}

/// The conversions from the types of variants, in order.
pub open spec fn from_codes(name: Seq<Token>, variants: Seq<VariantField>) -> Seq<Seq<Token>> {
    variants.map_values(|variant: VariantField| from_code(name, variant))
}

/// The arms of variants in the conversion to bytes, in order.
pub open spec fn arm_codes(name: Seq<Token>, variants: Seq<VariantField>) -> Seq<Seq<Token>> {
    variants.map_values(|variant: VariantField| arm_code(name, variant))
}

/// Nothing is gathered about the enum of that name.
pub open spec fn started(name: Seq<Token>) -> DeriveView {
    DeriveView {
        name,
        from_impls: seq![],
        match_arms: seq![],
        seen_items: Map::empty(),
        variants_to_process: seq![],
        diagnostics: seq![],
    }
}

/// The code for one more variant is added.
pub open spec fn with_variant(derive: DeriveView, variant: VariantField) -> DeriveView {
    DeriveView {
        from_impls: derive.from_impls.push(from_code(derive.name, variant)),
        match_arms: derive.match_arms.push(arm_code(derive.name, variant)),
        ..derive
    }
}

/// One more enum is known.
pub open spec fn with_item(derive: DeriveView, item: EnumView) -> DeriveView {
    DeriveView { seen_items: derive.seen_items.insert(item.ident, item), ..derive }
}

/// What comes from variants is gathered.
pub open spec fn with_collected(derive: DeriveView, variants: Seq<VariantView>) -> DeriveView {
    let gathered = collected(derive.seen_items, variants);
    DeriveView {
        variants_to_process: derive.variants_to_process + gathered.variants,
        diagnostics: derive.diagnostics + gathered.diagnostics,
        ..derive
    }
}

/// The code for all variants that were left to process is added.
pub open spec fn processed(derive: DeriveView) -> DeriveView {
    DeriveView {
        from_impls: derive.from_impls + from_codes(derive.name, derive.variants_to_process),
        match_arms: derive.match_arms + arm_codes(derive.name, derive.variants_to_process),
        variants_to_process: seq![],
        ..derive
    }
}

/// What the derive macro gathers about an enum: the only enum that is known is
/// the enum itself.
pub open spec fn derived(item: EnumView) -> DeriveView {
    DeriveView {
        name: item.name,
        from_impls: from_codes(item.name, singles(item.variants)),
        match_arms: arm_codes(item.name, singles(item.variants)),
        seen_items: map![item.ident => item],
        variants_to_process: seq![],
        diagnostics: variant_errors(item.variants),
    }
}

/// What the derive macro makes of an enum.
pub open spec fn enum_expansion(item: EnumView) -> ExpansionView {
    ExpansionView {
        tokens: derive_code(derived(item)),
        diagnostics: variant_errors(item.variants),
    }
}

/// What the derive macro gives back for what its input parses to.
pub open spec fn derive_expansion(parsed: Result<EnumView, Seq<Token>>) -> ExpansionView {
    match parsed {
        Ok(item) => enum_expansion(item),
        Err(error) => ExpansionView { tokens: error, diagnostics: seq![] },
    }
}

/// [`is_derived`], decided.
fn any_derives(item: &EnumItem) -> (found: bool)
    ensures
        found == is_derived(item@),
{
    let mut i: usize = 0;
    while i < item.attributes.len()
        invariant
            i <= item.attributes.len(),
            forall|j: int|
                0 <= j < i ==> !derives_solidity_error(#[trigger] item@.attributes[j]),
        decreases item.attributes.len() - i,
    {
        let attribute = &item.attributes[i];
        assert(item@.attributes[i as int] == attribute@);
        if let Some(list) = &attribute.list {
            if let Some(ident) = &attribute.ident {
                if same(ident.as_str(), "derive") {
                    proof {
                        reveal_strlit("SolidityError");
                        assert(is_capitalized("SolidityError"@));
                    }
                    if has(print(list).as_str(), "SolidityError") {
                        return true;
                    }
                }
            }
        }
        i = i + 1;
    }
    false
}

/// [`is_enum`], decided.
fn counts_as_enum(seen: &StringHashMap<EnumItem>, ty: &Type) -> (counts: bool)
    ensures
        counts == is_enum(item_views(seen@), ty@),
{
    if let Some(last) = ty.last() {
        if last.bare {
            let name = last.ident.as_str();
            if let Some(item) = seen.get(name) {
                return any_derives(item);
            }
            return ends(name, "Error") && !starts(name, "My");
        }
    }
    false
}

/// [`single_field`], found.
fn only_field(variant: &Variant) -> (field: Option<&Field>)
    ensures
        (match field {
            Some(field) => Some(field@),
            None => None::<FieldView>,
        }) == single_field(variant@),
{
    if let Fields::Unnamed(fields) = &variant.fields {
        if fields.len() == 1 {
            return Some(&fields[0]);
        }
    }
    None
}

/// [`held`], found.
fn held_enum<'a>(seen: &'a StringHashMap<EnumItem>, variant: &Variant) -> (inner: Option<
    &'a EnumItem,
>)
    ensures
        (match inner {
            Some(inner) => Some(inner@),
            None => None::<EnumView>,
        }) == held(item_views(seen@), variant@),
{
    if let Some(field) = only_field(variant) {
        if counts_as_enum(seen, &field.ty) {
            if let Some(last) = field.ty.last() {
                return seen.get(last.ident.as_str());
            }
        }
    }
    None
}

/// [`bounded`], decided.
fn is_bounded(seen: &StringHashMap<EnumItem>, item: &EnumItem, depth: usize) -> (found: bool)
    ensures
        found == bounded(item_views(seen@), item@.variants, depth as nat),
    decreases depth,
{
    let ghost known = item_views(seen@);
    let ghost variants = item@.variants;
    let mut i: usize = 0;
    while i < item.variants.len()
        invariant
            i <= item.variants.len(),
            known == item_views(seen@),
            variants == item@.variants,
            forall|j: int|
                0 <= j < i && held(known, #[trigger] variants[j]) is Some ==> depth > 0
                    && bounded(known, held(known, variants[j])->0.variants, (depth - 1) as nat),
        decreases item.variants.len() - i,
    {
        let variant = &item.variants[i];
        assert(variant@ == variants[i as int]);
        if let Some(inner) = held_enum(seen, variant) {
            if depth == 0 || !is_bounded(seen, inner, depth - 1) {
                return false;
            }
        }
        i = i + 1;
    }
    true
}

/// [`nested`], found.
fn nested_enum<'a>(seen: &'a StringHashMap<EnumItem>, variant: &Variant) -> (inner: Option<
    &'a EnumItem,
>)
    ensures
        (match inner {
            Some(inner) => Some(inner@),
            None => None::<EnumView>,
        }) == nested(item_views(seen@), variant@),
{
    assert(item_views(seen@).dom() =~= seen@.dom());
    match held_enum(seen, variant) {
        Some(inner) => if is_bounded(seen, inner, seen.len()) {
            Some(inner)
        } else {
            None
        },
        None => None,
    }
}

/// Gathers the variants of an enum, and those of the enums nested in it.
fn collect(
    seen: &StringHashMap<EnumItem>,
    item: &EnumItem,
    pending: &mut Vec<(TokenStream, Field)>,
    diagnostics: &mut Vec<Diagnostic>,
    Ghost(depth): Ghost<nat>,
)
    requires
        shallow(item_views(seen@), item@.variants, depth),
    ensures
        pending_views(final(pending)@) == pending_views(old(pending)@) + collected_within(
            item_views(seen@),
            item@.variants,
            depth,
        ).variants,
        reports(final(diagnostics)@) == reports(old(diagnostics)@) + collected_within(
            item_views(seen@),
            item@.variants,
            depth,
        ).diagnostics,
    decreases depth,
{
    let ghost known = item_views(seen@);
    let ghost variants = item@.variants;
    let ghost pending_before = pending_views(pending@);
    let ghost diagnostics_before = reports(diagnostics@);
    let mut i: usize = 0;
    assert(variants.take(0) =~= seq![]);
    while i < item.variants.len()
        invariant
            i <= item.variants.len(),
            known == item_views(seen@),
            variants == item@.variants,
            shallow(known, variants, depth),
            pending_views(pending@) =~= pending_before + collected_within(
                known,
                variants.take(i as int),
                depth,
            ).variants,
            reports(diagnostics@) =~= diagnostics_before + collected_within(
                known,
                variants.take(i as int),
                depth,
            ).diagnostics,
        decreases item.variants.len() - i,
    {
        let variant = &item.variants[i];
        let ghost pending_now = pending@;
        let ghost diagnostics_now = diagnostics@;
        proof {
            assert(variant@ == variants[i as int]);
            assert(variants.take(i + 1).drop_last() =~= variants.take(i as int));
            assert(variants.take(i + 1).last() == variants[i as int]);
        }
        match nested_enum(seen, variant) {
            Some(inner) => {
                proof {
                    lemma_bounded_is_shallow(known, inner@.variants, (depth - 1) as nat);
                }
                collect(seen, inner, pending, diagnostics, Ghost((depth - 1) as nat));
            },
            None => match only_field(variant) {
                Some(field) => {
                    pending.push((variant.name.clone(), field.clone()));
                    assert(pending_views(pending@) =~= pending_views(pending_now) + own(
                        variant@,
                    ).variants);
                },
                None => {
                    let at = match &variant.fields {
                        Fields::Unit => variant.tokens.clone(),
                        _ => variant.fields_tokens.clone(),
                    };
                    let message = String::from_str("variant not a 1-tuple");
                    diagnostics.push(Diagnostic { at, message });
                    assert(reports(diagnostics@) =~= reports(diagnostics_now) + own(
                        variant@,
                    ).diagnostics);
                },
            },
        }
        i = i + 1;
    }
    assert(variants.take(i as int) =~= variants);
}

impl DeriveSolidityError<()> {
    /// Nothing is gathered yet about the enum of that name.
    pub fn new(name: TokenStream) -> (derive: Self)
        ensures
            derive@ == started(tokens(name)),
    {
        let derive = DeriveSolidityError {
            name,
            from_impls: Vec::new(),
            match_arms: Vec::new(),
            _ext: (),
            seen_items: StringHashMap::new(),
            variants_to_process: Vec::new(),
            diagnostics: Vec::new(),
        };
        proof {
            assert(derive@.from_impls =~= seq![]);
            assert(derive@.match_arms =~= seq![]);
            assert(derive@.seen_items =~= Map::empty());
            assert(derive@.variants_to_process =~= seq![]);
            assert(derive@.diagnostics =~= seq![]);
        }
        derive
    }

    /// Generates the code for a variant with a single field.
    pub fn add_variant(&mut self, name: &TokenStream, field: Field)
        ensures
            final(self)@ == with_variant(old(self)@, (tokens(*name), field@)),
    {
        proof {
            lemma_words();
        }
        let ghost before = *self;
        let ty = &field.ty.tokens;
        let mut from_impl = write_code(vec![Word("impl"), Word("From"), Op('<')]);
        push_stream(&mut from_impl, ty);
        push_code(&mut from_impl, vec![Op('>'), Word("for")]);
        push_stream(&mut from_impl, &self.name);
        let mut argument = write_code(vec![Word("value"), Op(':')]);
        push_stream(&mut argument, ty);
        let mut result = self.name.clone();
        push_part(&mut result, Sep);
        push_stream(&mut result, name);
        push_group(&mut result, Delimiter::Parenthesis, write_part(Word("value")));
        let mut from = write_code(vec![Word("fn"), Word("from")]);
        push_group(&mut from, Delimiter::Parenthesis, argument);
        push_code(&mut from, vec![Op2('-', '>'), Word("Self")]);
        push_group(&mut from, Delimiter::Brace, result);
        push_group(&mut from_impl, Delimiter::Brace, from);
        assert(tokens(from_impl) == from_code(self@.name, (tokens(*name), field@)));

        let mut arm = self.name.clone();
        push_part(&mut arm, Sep);
        push_stream(&mut arm, name);
        push_group(&mut arm, Delimiter::Parenthesis, write_part(Word("e")));
        push_code(
            &mut arm,
            vec![
                Op2('=', '>'), Word("stylus_sdk"), Sep, Word("call"), Sep, Word("MethodError"),
                Sep, Word("encode"),
            ],
        );
        push_group(&mut arm, Delimiter::Parenthesis, write_part(Word("e")));
        push_part(&mut arm, Op(','));
        assert(tokens(arm) == arm_code(self@.name, (tokens(*name), field@)));

        self.from_impls.push(from_impl);
        self.match_arms.push(arm);
        self._ext.add_variant(field);
        proof {
            assert(self@.from_impls =~= before@.from_impls.push(tokens(from_impl)));
            assert(self@.match_arms =~= before@.match_arms.push(tokens(arm)));
        }
    }

    /// Checks if a type is an enum.
    pub fn is_enum_type(&self, ty: &Type) -> (counts: bool)
        ensures
            counts == is_enum(self@.seen_items, ty@),
    {
        counts_as_enum(&self.seen_items, ty)
    }

    /// Keeps track of an item, if it is an enum.
    pub fn add_item(&mut self, item: Item)
        ensures
            final(self)@ == (match item {
                Item::Enum(item) => with_item(old(self)@, item@),
                Item::Other(_) => old(self)@,
            }),
    {
        if let Item::Enum(item) = item {
            let ghost before = self@;
            let ghost added = item@;
            self.seen_items.insert(item.ident.clone(), item);
            assert(self@.seen_items =~= before.seen_items.insert(added.ident, added));
        }
    }

    /// Collects all variants of an enum, including those of nested enums.
    pub fn collect_variants(&mut self, item: &EnumItem)
        ensures
            final(self)@ == with_collected(old(self)@, item@.variants),
    {
        let ghost depth = self@.seen_items.len() + 1;
        collect(
            &self.seen_items,
            item,
            &mut self.variants_to_process,
            &mut self.diagnostics,
            Ghost(depth),
        );
    }

    /// Processes all collected variants.
    pub fn process_collected_variants(&mut self)
        ensures
            final(self)@ == processed(old(self)@),
    {
        let ghost before = self@;
        let ghost pending = self@.variants_to_process;
        let mut variants: Vec<(TokenStream, Field)> = Vec::new();
        std::mem::swap(&mut variants, &mut self.variants_to_process);
        let mut i: usize = 0;
        proof {
            assert(self@.variants_to_process =~= seq![]);
            assert(from_codes(before.name, pending.take(0)) =~= seq![]);
            assert(arm_codes(before.name, pending.take(0)) =~= seq![]);
            assert(before.from_impls + seq![] =~= before.from_impls);
            assert(before.match_arms + seq![] =~= before.match_arms);
        }
        while i < variants.len()
            invariant
                i <= variants.len(),
                pending == pending_views(variants@),
                self@ == (DeriveView {
                    from_impls: before.from_impls + from_codes(
                        before.name,
                        pending.take(i as int),
                    ),
                    match_arms: before.match_arms + arm_codes(
                        before.name,
                        pending.take(i as int),
                    ),
                    variants_to_process: seq![],
                    ..before
                }),
            decreases variants.len() - i,
        {
            let variant = &variants[i];
            let ghost next = pending[i as int];
            self.add_variant(&variant.0, variant.1.clone());
            proof {
                assert(next == (tokens(variant.0), variant.1@));
                assert(pending.take(i + 1) =~= pending.take(i as int).push(next));
                assert(before.from_impls + from_codes(before.name, pending.take(i + 1)) =~= (
                before.from_impls + from_codes(before.name, pending.take(i as int))).push(
                    from_code(before.name, next),
                ));
                assert(before.match_arms + arm_codes(before.name, pending.take(i + 1)) =~= (
                before.match_arms + arm_codes(before.name, pending.take(i as int))).push(
                    arm_code(before.name, next),
                ));
            }
            i = i + 1;
        }
        assert(pending.take(i as int) =~= pending);
    }

    /// The conversion to bytes.
    pub fn vec_u8_from_impl(&self) -> (stream: TokenStream)
        ensures
            tokens(stream) == bytes_code(self@.name, self@.match_arms),
    {
        proof {
            lemma_words();
        }
        let arms = write_all(&self.match_arms);
        let mut convert = write_code(vec![Word("match"), Word("err")]);
        push_group(&mut convert, Delimiter::Brace, arms);
        let mut argument = write_code(vec![Word("err"), Op(':')]);
        push_stream(&mut argument, &self.name);
        let mut from = write_code(vec![Word("fn"), Word("from")]);
        push_group(&mut from, Delimiter::Parenthesis, argument);
        push_code(&mut from, vec![Op2('-', '>'), Word("Self")]);
        push_group(&mut from, Delimiter::Brace, convert);
        let mut stream = write_code(vec![Word("impl"), Word("From"), Op('<')]);
        push_stream(&mut stream, &self.name);
        push_code(
            &mut stream,
            vec![
                Op('>'), Word("for"), Word("alloc"), Sep, Word("vec"), Sep, Word("Vec"), Op('<'),
                Word("u8"), Op('>'),
            ],
        );
        push_group(&mut stream, Delimiter::Brace, from);
        stream
    }

    /// Gathers all about an enum.
    pub fn from(item: &EnumItem) -> (derive: Self)
        ensures
            derive@ == derived(item@),
    {
        let mut output = DeriveSolidityError::new(item.name.clone());
        // The enum itself is known.
        output.add_item(Item::Enum(item.clone()));
        proof {
            assert(output@.seen_items =~= map![item@.ident => item@]);
            lemma_own_variants(item@);
            lemma_flat(map![item@.ident => item@], item@.variants);
        }
        output.collect_variants(item);
        output.process_collected_variants();
        proof {
            assert(output@.from_impls =~= derived(item@).from_impls);
            assert(output@.match_arms =~= derived(item@).match_arms);
            assert(output@.diagnostics =~= derived(item@).diagnostics);
        }
        output
    }

    /// Appends all the code that is generated for the enum.
    pub fn to_tokens(&self, stream: &mut TokenStream)
        ensures
            tokens(*final(stream)) == tokens(*old(stream)) + derive_code(self@),
    {
        let mut generated = write_all(&self.from_impls);
        let bytes = self.vec_u8_from_impl();
        push_stream(&mut generated, &bytes);
        let extension = <() as SolidityErrorExtension>::codegen(self);
        push_stream(&mut generated, &extension);
        assert(tokens(generated) =~= derive_code(self@));
        push_stream(stream, &generated);
    }
}

/// Streams, one behind the other.
fn write_all(streams: &Vec<TokenStream>) -> (stream: TokenStream)
    ensures
        tokens(stream) == joined(stream_views(streams@)),
{
    let ghost views = stream_views(streams@);
    let mut stream = TokenStream::new();
    let mut i: usize = 0;
    assert(views.take(0) =~= seq![]);
    while i < streams.len()
        invariant
            i <= streams.len(),
            views == stream_views(streams@),
            tokens(stream) == joined(views.take(i as int)),
        decreases streams.len() - i,
    {
        push_stream(&mut stream, &streams[i]);
        i = i + 1;
        assert(views.take(i as int).drop_last() =~= views.take(i - 1));
        assert(views.take(i as int).last() == tokens(streams[i - 1]));
    }
    assert(views.take(i as int) =~= views);
    stream
}

/// Where the only enum that is known is the enum itself, none is nested in its
/// variants.
pub(crate) proof fn lemma_own_variants(item: EnumView)
    ensures
        forall|i: int|
            0 <= i < item.variants.len() ==> nested(
                map![item.ident => item],
                #[trigger] item.variants[i],
            ) is None,
{
    let seen = map![item.ident => item];
    assert forall|i: int| 0 <= i < item.variants.len() implies nested(
        seen,
        #[trigger] item.variants[i],
    ) is None by {
        if held(seen, item.variants[i]) is Some {
            lemma_holds_itself(seen, item, i, seen.len());
        }
    }
}

/// Where no enum is nested in the variants, the variants with a single field
/// are gathered, and the others are reported.
pub(crate) proof fn lemma_flat(seen: Map<Seq<char>, EnumView>, variants: Seq<VariantView>)
    requires
        forall|i: int| 0 <= i < variants.len() ==> nested(seen, #[trigger] variants[i]) is None,
    ensures
        collected(seen, variants) == (Collected {
            variants: singles(variants),
            diagnostics: variant_errors(variants),
        }),
{
    lemma_flat_within(seen, variants, seen.len() + 1);
}

/// The same for any depth.
proof fn lemma_flat_within(
    seen: Map<Seq<char>, EnumView>,
    variants: Seq<VariantView>,
    depth: nat,
)
    requires
        forall|i: int| 0 <= i < variants.len() ==> nested(seen, #[trigger] variants[i]) is None,
    ensures
        collected_within(seen, variants, depth) == (Collected {
            variants: singles(variants),
            diagnostics: variant_errors(variants),
        }),
    decreases variants.len(),
{
    if variants.len() > 0 {
        let fewer = variants.drop_last();
        assert forall|i: int| 0 <= i < fewer.len() implies nested(
            seen,
            #[trigger] fewer[i],
        ) is None by {
            assert(fewer[i] == variants[i]);
        }
        lemma_flat_within(seen, fewer, depth);
        assert(variants.last() == variants[variants.len() - 1]);
        let gathered = collected_within(seen, variants, depth);
        assert(gathered.variants =~= singles(variants));
        assert(gathered.diagnostics =~= variant_errors(variants));
    }
}

/// What `#[derive(SolidityError)]` does with an enum item, once it is parsed.
pub fn expand_enum(item: &EnumItem) -> (expansion: Expansion)
    ensures
        expansion@ == enum_expansion(item@),
{
    let derive = DeriveSolidityError::from(item);
    let mut output = TokenStream::new();
    derive.to_tokens(&mut output);
    assert(tokens(output) =~= derive_code(derived(item@)));
    Expansion { tokens: output, diagnostics: derive.diagnostics }
}

/// The `#[derive(SolidityError)]` macro, on the item that it stands on.
pub fn derive_solidity_error(input: TokenStream) -> (expansion: Expansion)
    ensures
        expansion@ == derive_expansion(parsed_enum(tokens(input))),
{
    match parse_enum(input) {
        Ok(item) => expand_enum(&EnumItem::read(&item)),
        Err(error) => {
            let diagnostics: Vec<Diagnostic> = Vec::new();
            assert(reports(diagnostics@) =~= seq![]);
            Expansion { tokens: error, diagnostics }
        },
    }
}

} // verus!
