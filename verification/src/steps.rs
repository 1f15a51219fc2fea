//! What the code that `#[storage]` generates does: its statements, how they are
//! written as tokens, and what they do when they run.

use vstd::prelude::*;

use crate::storage::{
    inits_code, measure, new_code, place_code, size_code, sizes_code, slots_code, storage_item,
    StorageFieldView, StorageView,
};
use crate::tokens::Part::{Num, Op, Op2, Sep, Unit, Word};
use crate::tokens::{braces, code, parens, Part, Token};

verus! {

/// A variable of the generated code.
pub enum Var {
    /// The slots that are counted.
    Total,
    /// The bytes that are left in a slot.
    Space,
    /// The slot, counted from the root.
    Slot,
    /// The `SLOT_BYTES` of a type.
    Bytes,
    /// The `REQUIRED_SLOTS` of a type.
    Words,
}

impl Var {
    /// The variable, as written.
    pub open spec fn part(self) -> Part {
        match self {
            Var::Total => Word("total"),
            Var::Space => Word("space"),
            Var::Slot => Word("slot"),
            Var::Bytes => Word("bytes"),
            Var::Words => Word("words"),
        }
    }
}

/// A condition of the generated code.
pub enum Test {
    /// `var < other`
    Less(Var, Var),
    /// `var > n`
    Above(Var, u32),
    /// `var != n || other == m`
    NotOrIs(Var, u32, Var, u32),
}

/// A statement of the generated code, or several.
pub enum Step {
    /// One behind the other.
    Both(Box<Step>, Box<Step>),
    /// Nothing.
    Skip,
    /// `use stylus_sdk::storage;`
    UseStorage,
    /// `use stylus_sdk::{storage, alloy_primitives};`
    UseBoth,
    /// `debug_assert!(offset == 0);`
    CheckOffset,
    /// `let mut var: usize = n;`
    Let(Var, u32),
    /// ```text
    /// let bytes = <ty as storage::StorageType<H>>::SLOT_BYTES;
    /// let words = <ty as storage::StorageType<H>>::REQUIRED_SLOTS;
    /// ```
    Measure(Seq<Token>),
    /// `var = n;`
    Assign(Var, u32),
    /// `var += n;`
    Raise(Var, u32),
    /// `var += other;`
    Add(Var, Var),
    /// `var -= other;`
    Subtract(Var, Var),
    /// `if test { .. }`
    If(Test, Box<Step>),
    /// `if test { .. } else { .. }`
    IfElse(Test, Box<Step>, Box<Step>),
    /// ```text
    /// let root = root + alloy_primitives::U256::from(slot);
    /// let field = <ty as storage::StorageType<H>>::new(root, space as u8, Rc::clone(&self.host));
    /// ```
    HandOut(Seq<Token>),
    /// `name: { .. },`
    Init(Seq<Token>, Box<Step>),
    /// ```text
    /// let accessor = Self {
    ///     (the initializers)
    ///     host,
    /// };
    /// ```
    Accessor(Box<Step>),
    /// The value of a block: a variable.
    Value(&'static str),
}

/// A condition, written as tokens.
pub open spec fn render_test(test: Test) -> Seq<Token> {
    match test {
        Test::Less(var, other) => code(seq![var.part(), Op('<'), other.part()]),
        Test::Above(var, n) => code(seq![var.part(), Op('>'), Num(n)]),
        Test::NotOrIs(var, n, other, m) => code(
            seq![
                var.part(), Op2('!', '='), Num(n), Op2('|', '|'), other.part(), Op2('=', '='),
                Num(m),
            ],
        ),
    }
}

/// Statements, written as tokens, with the last two angle brackets of a measured
/// type joined or not.
pub open spec fn render(step: Step, joined: bool) -> Seq<Token>
    decreases step,
{
    match step {
        Step::Both(first, second) => render(*first, joined) + render(*second, joined),
        Step::Skip => seq![],
        Step::UseStorage => code(
            seq![Word("use"), Word("stylus_sdk"), Sep, Word("storage"), Op(';')],
        ),
        Step::UseBoth => code(seq![Word("use"), Word("stylus_sdk"), Sep]) + braces(
            code(seq![Word("storage"), Op(','), Word("alloy_primitives")]),
        ) + Op(';').tokens(),
        Step::CheckOffset => code(seq![Word("debug_assert"), Op('!')]) + parens(
            code(seq![Word("offset"), Op2('=', '='), Num(0)]),
        ) + Op(';').tokens(),
        Step::Let(var, n) => code(
            seq![
                Word("let"), Word("mut"), var.part(), Op(':'), Word("usize"), Op('='), Num(n),
                Op(';'),
            ],
        ),
        Step::Measure(ty) => measure(ty, joined),
        Step::Assign(var, n) => code(seq![var.part(), Op('='), Num(n), Op(';')]),
        Step::Raise(var, n) => code(seq![var.part(), Op2('+', '='), Num(n), Op(';')]),
        Step::Add(var, other) => code(seq![var.part(), Op2('+', '='), other.part(), Op(';')]),
        Step::Subtract(var, other) => code(
            seq![var.part(), Op2('-', '='), other.part(), Op(';')],
        ),
        Step::If(test, then_steps) => Word("if").tokens() + render_test(test) + braces(
            render(*then_steps, joined),
        ),
        Step::IfElse(test, then_steps, else_steps) => Word("if").tokens() + render_test(test)
            + braces(render(*then_steps, joined)) + Word("else").tokens() + braces(
            render(*else_steps, joined),
        ),
        Step::HandOut(ty) => code(
            seq![
                Word("let"), Word("root"), Op('='), Word("root"), Op('+'),
                Word("alloy_primitives"), Sep, Word("U256"), Sep, Word("from"),
            ],
        ) + parens(Word("slot").tokens()) + code(
            seq![Op(';'), Word("let"), Word("field"), Op('=')],
        ) + storage_item(ty, "new", joined) + parens(
            code(
                seq![
                    Word("root"), Op(','), Word("space"), Word("as"), Word("u8"), Op(','),
                    Word("Rc"), Sep, Word("clone"),
                ],
            ) + parens(code(seq![Op('&'), Word("self"), Op('.'), Word("host")])),
        ) + Op(';').tokens(),
        Step::Init(name, block) => name + Op(':').tokens() + braces(render(*block, joined))
            + Op(',').tokens(),
        Step::Accessor(inits) => code(
            seq![Word("let"), Word("accessor"), Op('='), Word("Self")],
        ) + braces(render(*inits, joined) + code(seq![Word("host"), Op(',')])) + Op(';').tokens(),
        Step::Value(name) => Word(name).tokens(),
    }
}

/// An accessor that a field was given: the name of the field, the type that the
/// accessor was made for, and its slot, counted from the root, and offset.
pub struct Given {
    pub name: Seq<Token>,
    pub ty: Seq<Token>,
    pub slot: int,
    pub offset: int,
}

/// The variables of the generated code while it runs, and the accessors that
/// were given to fields so far.
pub struct State {
    pub total: int,
    pub space: int,
    pub slot: int,
    pub bytes: int,
    pub words: int,
    /// The variable `field`: the type, slot and offset of an accessor.
    pub field: (Seq<Token>, int, int),
    pub given: Seq<Given>,
}

impl State {
    /// The value of a variable.
    pub open spec fn get(self, var: Var) -> int {
        match var {
            Var::Total => self.total,
            Var::Space => self.space,
            Var::Slot => self.slot,
            Var::Bytes => self.bytes,
            Var::Words => self.words,
        }
    }

    /// A variable has another value.
    pub open spec fn set(self, var: Var, value: int) -> State {
        match var {
            Var::Total => State { total: value, ..self },
            Var::Space => State { space: value, ..self },
            Var::Slot => State { slot: value, ..self },
            Var::Bytes => State { bytes: value, ..self },
            Var::Words => State { words: value, ..self },
        }
    }
}

/// Nothing has run yet.
pub open spec fn start() -> State {
    State {
        total: 0,
        space: 0,
        slot: 0,
        bytes: 0,
        words: 0,
        field: (seq![], 0, 0),
        given: seq![],
    }
}

/// A condition holds.
pub open spec fn holds(test: Test, state: State) -> bool {
    match test {
        Test::Less(var, other) => state.get(var) < state.get(other),
        Test::Above(var, n) => state.get(var) > n,
        Test::NotOrIs(var, n, other, m) => state.get(var) != n || state.get(other) == m,
    }
}

/// What statements do when they run, where `sizes` gives the `SLOT_BYTES` and
/// the `REQUIRED_SLOTS` of each type. Numbers are taken without bounds.
pub open spec fn run(
    step: Step,
    sizes: spec_fn(Seq<Token>) -> (nat, nat),
    state: State,
) -> State
    decreases step,
{
    match step {
        Step::Both(first, second) => run(*second, sizes, run(*first, sizes, state)),
        Step::Let(var, n) => state.set(var, n as int),
        Step::Measure(ty) => State {
            bytes: sizes(ty).0 as int,
            words: sizes(ty).1 as int,
            ..state
        },
        Step::Assign(var, n) => state.set(var, n as int),
        Step::Raise(var, n) => state.set(var, state.get(var) + n),
        Step::Add(var, other) => state.set(var, state.get(var) + state.get(other)),
        Step::Subtract(var, other) => state.set(var, state.get(var) - state.get(other)),
        Step::If(test, then_steps) => if holds(test, state) {
            run(*then_steps, sizes, state)
        } else {
            state
        },
        Step::IfElse(test, then_steps, else_steps) => if holds(test, state) {
            run(*then_steps, sizes, state)
        } else {
            run(*else_steps, sizes, state)
        },
        Step::HandOut(ty) => State { field: (ty, state.slot, state.space), ..state },
        Step::Init(name, block) => {
            let after = run(*block, sizes, state);
            let (ty, slot, offset) = after.field;
            State { given: after.given.push(Given { name, ty, slot, offset }), ..after }
        },
        Step::Accessor(inits) => run(*inits, sizes, state),
        _ => state,
    }
}

/// Steps, one behind the other.
pub open spec fn both(first: Step, second: Step) -> Step {
    Step::Both(Box::new(first), Box::new(second))
}

/// The statements that count the slots of a field.
pub open spec fn size_steps(ty: Seq<Token>) -> Step {
    both(
        Step::Measure(ty),
        Step::IfElse(
            Test::Above(Var::Words, 0),
            Box::new(both(Step::Add(Var::Total, Var::Words), Step::Assign(Var::Space, 32))),
            Box::new(
                both(
                    Step::If(
                        Test::Less(Var::Space, Var::Bytes),
                        Box::new(both(Step::Assign(Var::Space, 32), Step::Raise(Var::Total, 1))),
                    ),
                    Step::Subtract(Var::Space, Var::Bytes),
                ),
            ),
        ),
    )
}

/// The statements that count the slots of fields.
pub open spec fn sizes_steps(fields: Seq<StorageFieldView>) -> Step
    decreases fields.len(),
{
    if fields.len() == 0 {
        Step::Skip
    } else {
        both(sizes_steps(fields.drop_last()), size_steps(fields.last().ty))
    }
}

/// The body of `required_slots`.
pub open spec fn slots_steps(fields: Seq<StorageFieldView>) -> Step {
    both(
        both(both(Step::UseStorage, Step::Let(Var::Total, 0)), Step::Let(Var::Space, 32)),
        both(
            sizes_steps(fields),
            both(
                Step::If(
                    Test::NotOrIs(Var::Space, 32, Var::Total, 0),
                    Box::new(Step::Raise(Var::Total, 1)),
                ),
                Step::Value("total"),
            ),
        ),
    )
}

/// The statements that make the accessor of a field.
pub open spec fn place_steps(ty: Seq<Token>) -> Step {
    both(
        both(
            Step::Measure(ty),
            Step::If(
                Test::Less(Var::Space, Var::Bytes),
                Box::new(both(Step::Assign(Var::Space, 32), Step::Raise(Var::Slot, 1))),
            ),
        ),
        both(
            both(Step::Subtract(Var::Space, Var::Bytes), Step::HandOut(ty)),
            both(
                Step::If(
                    Test::Above(Var::Words, 0),
                    Box::new(both(Step::Add(Var::Slot, Var::Words), Step::Assign(Var::Space, 32))),
                ),
                Step::Value("field"),
            ),
        ),
    )
}

/// The initializers of the fields that have a name.
pub open spec fn inits_steps(fields: Seq<StorageFieldView>) -> Step
    decreases fields.len(),
{
    if fields.len() == 0 {
        Step::Skip
    } else {
        match fields.last().name {
            Some(name) => both(
                inits_steps(fields.drop_last()),
                Step::Init(name, Box::new(place_steps(fields.last().ty))),
            ),
            None => inits_steps(fields.drop_last()),
        }
    }
}

/// The body of the constructor.
pub open spec fn new_steps(fields: Seq<StorageFieldView>) -> Step {
    both(
        both(
            both(Step::UseBoth, Step::CheckOffset),
            both(Step::Let(Var::Space, 32), Step::Let(Var::Slot, 0)),
        ),
        both(Step::Accessor(Box::new(inits_steps(fields))), Step::Value("accessor")),
    )
}

/// What the generated `required_slots` gives for the fields.
pub open spec fn required_slots(
    fields: Seq<StorageFieldView>,
    sizes: spec_fn(Seq<Token>) -> (nat, nat),
) -> int {
    run(slots_steps(fields), sizes, start()).total
}

/// The accessors that the generated constructor gives to the fields, in order.
pub open spec fn accessors(
    fields: Seq<StorageFieldView>,
    sizes: spec_fn(Seq<Token>) -> (nat, nat),
) -> Seq<Given> {
    run(new_steps(fields), sizes, start()).given
}

/// The slots, counted from the root, and the offsets that the generated
/// constructor hands to the fields, in order.
pub open spec fn handed_out(
    fields: Seq<StorageFieldView>,
    sizes: spec_fn(Seq<Token>) -> (nat, nat),
) -> Seq<(int, int)> {
    accessors(fields, sizes).map_values(|given: Given| (given.slot, given.offset))
}

/// Pieces of code, and others behind them.
pub(crate) proof fn lemma_code_both(first: Seq<Part>, second: Seq<Part>)
    ensures
        code(first + second) == code(first) + code(second),
    decreases second.len(),
{
    if second.len() == 0 {
        assert(first + second =~= first);
        assert(code(first) + code(second) =~= code(first));
    } else {
        assert((first + second).drop_last() =~= first + second.drop_last());
        lemma_code_both(first, second.drop_last());
        assert(code(first + second) =~= code(first) + code(second));
    }
}

/// One piece of code.
pub(crate) proof fn lemma_code_one(part: Part)
    ensures
        code(seq![part]) == part.tokens(),
{
    reveal_with_fuel(code, 2);
    assert(seq![part].drop_last() =~= Seq::empty());
    assert(code(seq![part]) =~= part.tokens());
}

/// A condition behind `if`.
proof fn lemma_if(test: Seq<Part>)
    ensures
        Word("if").tokens() + code(test) == code(seq![Word("if")] + test),
{
    lemma_code_one(Word("if"));
    lemma_code_both(seq![Word("if")], test);
}

/// Code behind a semicolon.
proof fn lemma_semicolon(parts: Seq<Part>)
    ensures
        Op(';').tokens() + code(parts) == code(seq![Op(';')] + parts),
{
    lemma_code_one(Op(';'));
    lemma_code_both(seq![Op(';')], parts);
}

/// The code that counts the slots of a field is its statements, written as
/// tokens.
pub proof fn law_size_code_is_steps(ty: Seq<Token>, joined: bool)
    ensures
        size_code(ty, joined) == render(size_steps(ty), joined),
{
    reveal_with_fuel(render, 6);
    let total = seq![Word("total"), Op2('+', '='), Word("words"), Op(';')];
    let full = seq![Word("space"), Op('='), Num(32), Op(';')];
    let next = seq![Word("total"), Op2('+', '='), Num(1), Op(';')];
    lemma_code_both(total, full);
    lemma_code_both(full, next);
    assert(total + full =~= seq![
        Word("total"), Op2('+', '='), Word("words"), Op(';'),
        Word("space"), Op('='), Num(32), Op(';'),
    ]);
    assert(full + next =~= seq![
        Word("space"), Op('='), Num(32), Op(';'),
        Word("total"), Op2('+', '='), Num(1), Op(';'),
    ]);
    let above = seq![Word("words"), Op('>'), Num(0)];
    lemma_if(above);
    assert(seq![Word("if")] + above =~= seq![Word("if"), Word("words"), Op('>'), Num(0)]);
    let less = seq![Word("space"), Op('<'), Word("bytes")];
    lemma_if(less);
    assert(seq![Word("if")] + less =~= seq![Word("if"), Word("space"), Op('<'), Word("bytes")]);
    assert(size_code(ty, joined) =~= render(size_steps(ty), joined));
}

/// The same for several fields.
proof fn lemma_sizes_code(fields: Seq<StorageFieldView>)
    ensures
        sizes_code(fields) == render(sizes_steps(fields), false),
    decreases fields.len(),
{
    if fields.len() > 0 {
        lemma_sizes_code(fields.drop_last());
        law_size_code_is_steps(fields.last().ty, false);
    }
}

/// The code that counts the slots of a struct is the function `required_slots`
/// with its statements, written as tokens.
pub proof fn law_slots_code_is_steps(storage: StorageView)
    ensures
        slots_code(storage) == Word("impl").tokens() + storage.generics.impl_generics
            + storage.name + storage.generics.ty_generics + storage.generics.where_clause + braces(
            code(
                seq![
                    Word("const"), Word("fn"), Word("required_slots"), Unit, Op2('-', '>'),
                    Word("usize"),
                ],
            ) + braces(render(slots_steps(storage.fields), false)),
        ),
{
    let fields = storage.fields;
    reveal_with_fuel(render, 5);
    lemma_sizes_code(fields);
    let imports = seq![Word("use"), Word("stylus_sdk"), Sep, Word("storage"), Op(';')];
    let total = seq![
        Word("let"), Word("mut"), Word("total"), Op(':'), Word("usize"), Op('='), Num(0), Op(';'),
    ];
    let space = seq![
        Word("let"), Word("mut"), Word("space"), Op(':'), Word("usize"), Op('='), Num(32), Op(';'),
    ];
    lemma_code_both(imports, total);
    lemma_code_both(imports + total, space);
    let front = seq![
        Word("use"), Word("stylus_sdk"), Sep, Word("storage"), Op(';'),
        Word("let"), Word("mut"), Word("total"), Op(':'), Word("usize"), Op('='),
        Num(0), Op(';'),
        Word("let"), Word("mut"), Word("space"), Op(':'), Word("usize"), Op('='),
        Num(32), Op(';'),
    ];
    assert(imports + total + space =~= front);
    let test = seq![
        Word("space"), Op2('!', '='), Num(32), Op2('|', '|'), Word("total"), Op2('=', '='), Num(0),
    ];
    lemma_if(test);
    let branch = seq![
        Word("if"), Word("space"), Op2('!', '='), Num(32), Op2('|', '|'),
        Word("total"), Op2('=', '='), Num(0),
    ];
    assert(seq![Word("if")] + test =~= branch);
    let body = code(front) + sizes_code(fields) + code(branch) + braces(
        code(seq![Word("total"), Op2('+', '='), Num(1), Op(';')]),
    ) + Word("total").tokens();
    assert(body =~= render(slots_steps(fields), false));
}

/// The tokens of a block that makes an accessor, statement by statement.
proof fn lemma_regroup_place(
    measured: Seq<Token>,
    packed: Seq<Token>,
    renew: Seq<Token>,
    shrink: Seq<Token>,
    root: Seq<Token>,
    offset: Seq<Token>,
    field: Seq<Token>,
    maker: Seq<Token>,
    arguments: Seq<Token>,
    semicolon: Seq<Token>,
    wide: Seq<Token>,
    leap: Seq<Token>,
    value: Seq<Token>,
)
    ensures
        measured + packed + renew + (shrink + root) + offset + field + maker + arguments + (
        semicolon + wide) + leap + value == (measured + (packed + renew)) + ((shrink + (root
            + offset + field + maker + arguments + semicolon)) + ((wide + leap) + value)),
{
    let made = offset + field + maker + arguments;
    assert(measured + packed + renew + (shrink + root) =~= (measured + (packed + renew)) + (shrink
        + root));
    assert((measured + (packed + renew)) + (shrink + root) + offset + field + maker + arguments
        =~= (measured + (packed + renew)) + (shrink + (root + made)));
    assert(root + offset + field + maker + arguments + semicolon =~= root + made + semicolon);
    let front = (measured + (packed + renew)) + (shrink + (root + made));
    assert(front + (semicolon + wide) + leap + value =~= front + semicolon + ((wide + leap)
        + value));
    assert(front + semicolon =~= (measured + (packed + renew)) + (shrink + (root + made
        + semicolon)));
    assert((measured + (packed + renew)) + (shrink + (root + made + semicolon)) + ((wide + leap)
        + value) =~= (measured + (packed + renew)) + ((shrink + (root + made + semicolon)) + ((wide
        + leap) + value)));
}

/// The tokens of the body of the constructor, statement by statement.
proof fn lemma_regroup_new(
    imports: Seq<Token>,
    imported: Seq<Token>,
    semicolon: Seq<Token>,
    check: Seq<Token>,
    checked: Seq<Token>,
    space: Seq<Token>,
    slot: Seq<Token>,
    accessor: Seq<Token>,
    inits: Seq<Token>,
    value: Seq<Token>,
)
    ensures
        imports + imported + (semicolon + check) + checked + (semicolon + (space + slot
            + accessor)) + inits + (semicolon + value) == ((imports + imported + semicolon) + (check
            + checked + semicolon) + (space + slot)) + ((accessor + inits + semicolon) + value),
{
    let first = imports + imported + semicolon;
    let second = check + checked + semicolon;
    assert(imports + imported + (semicolon + check) + checked + (semicolon + (space + slot
        + accessor)) =~= first + second + (space + slot) + accessor);
    assert(first + second + (space + slot) + accessor + inits + (semicolon + value) =~= (first
        + second + (space + slot)) + ((accessor + inits + semicolon) + value));
}

/// The code that makes the accessor of a field is a block of its statements,
/// written as tokens.
pub proof fn law_place_code_is_steps(ty: Seq<Token>)
    ensures
        place_code(ty) == braces(render(place_steps(ty), false)),
{
    reveal_with_fuel(render, 5);
    let less = seq![Word("space"), Op('<'), Word("bytes")];
    lemma_if(less);
    let packed = seq![Word("if"), Word("space"), Op('<'), Word("bytes")];
    assert(seq![Word("if")] + less =~= packed);
    let full = seq![Word("space"), Op('='), Num(32), Op(';')];
    let next = seq![Word("slot"), Op2('+', '='), Num(1), Op(';')];
    lemma_code_both(full, next);
    let renew = seq![
        Word("space"), Op('='), Num(32), Op(';'),
        Word("slot"), Op2('+', '='), Num(1), Op(';'),
    ];
    assert(full + next =~= renew);
    let shrink = seq![Word("space"), Op2('-', '='), Word("bytes"), Op(';')];
    let root = seq![
        Word("let"), Word("root"), Op('='), Word("root"), Op('+'),
        Word("alloy_primitives"), Sep, Word("U256"), Sep, Word("from"),
    ];
    lemma_code_both(shrink, root);
    let shift = seq![
        Word("space"), Op2('-', '='), Word("bytes"), Op(';'),
        Word("let"), Word("root"), Op('='), Word("root"), Op('+'),
        Word("alloy_primitives"), Sep, Word("U256"), Sep, Word("from"),
    ];
    assert(shrink + root =~= shift);
    let above = seq![Word("words"), Op('>'), Num(0)];
    lemma_if(above);
    assert(seq![Word("if")] + above =~= seq![Word("if"), Word("words"), Op('>'), Num(0)]);
    let wide = seq![Word("if"), Word("words"), Op('>'), Num(0)];
    lemma_semicolon(wide);
    let after = seq![Op(';'), Word("if"), Word("words"), Op('>'), Num(0)];
    assert(seq![Op(';')] + wide =~= after);
    let skip = seq![Word("slot"), Op2('+', '='), Word("words"), Op(';')];
    lemma_code_both(skip, full);
    let leap = seq![
        Word("slot"), Op2('+', '='), Word("words"), Op(';'),
        Word("space"), Op('='), Num(32), Op(';'),
    ];
    assert(skip + full =~= leap);
    let arguments = parens(
        code(
            seq![
                Word("root"), Op(','), Word("space"), Word("as"), Word("u8"), Op(','),
                Word("Rc"), Sep, Word("clone"),
            ],
        ) + parens(code(seq![Op('&'), Word("self"), Op('.'), Word("host")])),
    );
    let offset = parens(Word("slot").tokens());
    let field = code(seq![Op(';'), Word("let"), Word("field"), Op('=')]);
    let maker = storage_item(ty, "new", false);
    let semicolon = Op(';').tokens();
    lemma_regroup_place(
        measure(ty, false),
        code(packed),
        braces(code(renew)),
        code(shrink),
        code(root),
        offset,
        field,
        maker,
        arguments,
        semicolon,
        code(wide),
        braces(code(leap)),
        Word("field").tokens(),
    );
    assert(render(
        Step::If(
            Test::Less(Var::Space, Var::Bytes),
            Box::new(both(Step::Assign(Var::Space, 32), Step::Raise(Var::Slot, 1))),
        ),
        false,
    ) == code(packed) + braces(code(renew)));
    assert(render(Step::HandOut(ty), false) == code(root) + offset + field + maker + arguments
        + semicolon);
    assert(render(
        Step::If(
            Test::Above(Var::Words, 0),
            Box::new(both(Step::Add(Var::Slot, Var::Words), Step::Assign(Var::Space, 32))),
        ),
        false,
    ) == code(wide) + braces(code(leap)));
}

/// The initializers of fields.
proof fn lemma_inits_code(fields: Seq<StorageFieldView>)
    ensures
        inits_code(fields) == render(inits_steps(fields), false),
    decreases fields.len(),
{
    if fields.len() > 0 {
        lemma_inits_code(fields.drop_last());
        law_place_code_is_steps(fields.last().ty);
        reveal_with_fuel(render, 3);
        assert(inits_code(fields) =~= render(inits_steps(fields), false));
    }
}

/// The code of the constructor is the function `new` with its statements,
/// written as tokens.
pub proof fn law_new_code_is_steps(fields: Seq<StorageFieldView>)
    ensures
        new_code(fields) == code(seq![Word("unsafe"), Word("fn"), Word("new")]) + parens(
            code(
                seq![
                    Word("mut"), Word("root"), Op(':'), Word("stylus_sdk"), Sep,
                    Word("alloy_primitives"), Sep, Word("U256"), Op(','),
                    Word("offset"), Op(':'), Word("u8"), Op(','),
                    Word("host"), Op(':'), Word("Rc"), Op('<'), Word("H"), Op('>'),
                ],
            ),
        ) + code(seq![Op2('-', '>'), Word("Self")]) + braces(render(new_steps(fields), false)),
{
    reveal_with_fuel(render, 5);
    lemma_inits_code(fields);
    let check = seq![Word("debug_assert"), Op('!')];
    lemma_semicolon(check);
    assert(seq![Op(';')] + check =~= seq![Op(';'), Word("debug_assert"), Op('!')]);
    let space = seq![
        Word("let"), Word("mut"), Word("space"), Op(':'), Word("usize"), Op('='), Num(32), Op(';'),
    ];
    let slot = seq![
        Word("let"), Word("mut"), Word("slot"), Op(':'), Word("usize"), Op('='), Num(0), Op(';'),
    ];
    let accessor = seq![Word("let"), Word("accessor"), Op('='), Word("Self")];
    lemma_code_both(space, slot);
    lemma_code_both(space + slot, accessor);
    lemma_semicolon(space + slot + accessor);
    let middle = seq![
        Op(';'),
        Word("let"), Word("mut"), Word("space"), Op(':'), Word("usize"), Op('='),
        Num(32), Op(';'),
        Word("let"), Word("mut"), Word("slot"), Op(':'), Word("usize"), Op('='),
        Num(0), Op(';'),
        Word("let"), Word("accessor"), Op('='), Word("Self"),
    ];
    assert(seq![Op(';')] + (space + slot + accessor) =~= middle);
    lemma_code_one(Word("accessor"));
    lemma_semicolon(seq![Word("accessor")]);
    assert(seq![Op(';')] + seq![Word("accessor")] =~= seq![Op(';'), Word("accessor")]);
    lemma_regroup_new(
        code(seq![Word("use"), Word("stylus_sdk"), Sep]),
        braces(code(seq![Word("storage"), Op(','), Word("alloy_primitives")])),
        Op(';').tokens(),
        code(check),
        parens(code(seq![Word("offset"), Op2('=', '='), Num(0)])),
        code(space),
        code(slot),
        code(accessor),
        braces(inits_code(fields) + code(seq![Word("host"), Op(',')])),
        Word("accessor").tokens(),
    );
}

} // verus!
