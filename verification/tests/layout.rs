use std::collections::HashMap;

use proc_macro2::TokenStream;
use quote::ToTokens;
use stylus_proc::storage::storage;

/// Runs generated code, for fields whose types have these `SLOT_BYTES` and
/// `REQUIRED_SLOTS`: the type of the field `f3` is `T3`.
struct Machine {
    measures: Vec<(u64, u64)>,
    variables: HashMap<String, u64>,
    placed: Vec<(u64, u64)>,
}

impl Machine {
    fn new(measures: &[(u64, u64)]) -> Machine {
        Machine { measures: measures.to_vec(), variables: HashMap::new(), placed: vec![] }
    }

    fn measure(&self, path: &syn::ExprPath) -> u64 {
        let ty = path.qself.as_ref().unwrap().ty.to_token_stream().to_string();
        let measure = self.measures[ty[1..].parse::<usize>().unwrap()];
        match path.path.segments.last().unwrap().ident.to_string().as_str() {
            "SLOT_BYTES" => measure.0,
            "REQUIRED_SLOTS" => measure.1,
            other => panic!("{}", other),
        }
    }

    fn assign(&mut self, target: &syn::Expr, value: u64) {
        let name = target.to_token_stream().to_string();
        assert!(self.variables.insert(name, value).is_some());
    }

    fn block(&mut self, block: &syn::Block) -> u64 {
        let mut hidden: Vec<(String, Option<u64>)> = vec![];
        let mut result = 0;
        for statement in &block.stmts {
            match statement {
                syn::Stmt::Local(local) => {
                    let name = match &local.pat {
                        syn::Pat::Type(pat) => pat.pat.to_token_stream().to_string(),
                        pat => pat.to_token_stream().to_string(),
                    };
                    let name = name.trim_start_matches("mut ").to_string();
                    let value = self.value(&local.init.as_ref().unwrap().expr);
                    hidden.push((name.clone(), self.variables.insert(name, value)));
                }
                syn::Stmt::Expr(value, _) => result = self.value(value),
                syn::Stmt::Item(_) | syn::Stmt::Macro(_) => {}
            }
        }
        for (name, value) in hidden.into_iter().rev() {
            match value {
                Some(value) => self.variables.insert(name, value),
                None => self.variables.remove(&name),
            };
        }
        result
    }

    fn value(&mut self, value: &syn::Expr) -> u64 {
        match value {
            syn::Expr::Lit(literal) => literal.to_token_stream().to_string().parse().unwrap(),
            syn::Expr::Path(path) if path.qself.is_some() => self.measure(path),
            syn::Expr::Path(path) => self.variables[&path.to_token_stream().to_string()],
            syn::Expr::Cast(cast) => self.value(&cast.expr),
            syn::Expr::Block(block) => self.block(&block.block),
            syn::Expr::Assign(assign) => {
                let right = self.value(&assign.right);
                self.assign(&assign.left, right);
                0
            }
            syn::Expr::If(branch) => {
                if self.value(&branch.cond) == 1 {
                    self.block(&branch.then_branch)
                } else {
                    match &branch.else_branch {
                        Some((_, other)) => self.value(other),
                        None => 0,
                    }
                }
            }
            syn::Expr::Binary(binary) => {
                let left = self.value(&binary.left);
                let right = self.value(&binary.right);
                match &binary.op {
                    syn::BinOp::Add(_) => left + right,
                    syn::BinOp::Lt(_) => (left < right) as u64,
                    syn::BinOp::Gt(_) => (left > right) as u64,
                    syn::BinOp::Ne(_) => (left != right) as u64,
                    syn::BinOp::Eq(_) => (left == right) as u64,
                    syn::BinOp::Or(_) => left | right,
                    syn::BinOp::AddAssign(_) => {
                        self.assign(&binary.left, left + right);
                        0
                    }
                    syn::BinOp::SubAssign(_) => {
                        self.assign(&binary.left, left - right);
                        0
                    }
                    _ => panic!("an operator"),
                }
            }
            syn::Expr::Call(call) => {
                let first = self.value(&call.args[0]);
                if call.args.len() == 3 {
                    let offset = self.value(&call.args[1]);
                    self.placed.push((first, offset));
                }
                first
            }
            syn::Expr::Struct(accessor) => {
                for field in accessor.fields.iter().filter(|field| field.colon_token.is_some()) {
                    self.value(&field.expr);
                }
                0
            }
            _ => panic!("an expression"),
        }
    }
}

fn function(block: &syn::Item, name: &str) -> syn::Block {
    match block {
        syn::Item::Impl(block) => block
            .items
            .iter()
            .find_map(|item| match item {
                syn::ImplItem::Fn(function) if function.sig.ident == name => {
                    Some(function.block.clone())
                }
                _ => None,
            })
            .unwrap(),
        _ => panic!("an impl block"),
    }
}

/// The slots that are counted, and the slots and offsets that are handed out.
fn layout(measures: &[(u64, u64)]) -> (u64, Vec<(u64, u64)>) {
    let fields: Vec<String> = (0..measures.len()).map(|i| format!("f{}: T{}", i, i)).collect();
    let source: TokenStream = format!("struct S {{ {} }}", fields.join(", ")).parse().unwrap();
    let expansion = storage(TokenStream::new(), source).unwrap();
    let file = syn::parse2::<syn::File>(expansion.tokens).unwrap();
    let counted = Machine::new(measures).block(&function(&file.items[1], "required_slots"));
    let mut machine = Machine::new(measures);
    machine.variables.insert("root".to_string(), 0);
    machine.block(&function(&file.items[2], "new"));
    (counted, machine.placed)
}

fn owned(at: (u64, u64), measure: (u64, u64)) -> std::ops::Range<u64> {
    if measure.1 > 0 {
        at.0 * 32..(at.0 + measure.1) * 32
    } else {
        at.0 * 32 + at.1..at.0 * 32 + at.1 + measure.0
    }
}

#[test]
fn packed_fields_share_slots() {
    assert_eq!(layout(&[(1, 0)]), (1, vec![(0, 31)]));
    assert_eq!(
        layout(&[(20, 0), (12, 0), (1, 0), (32, 0)]),
        (3, vec![(0, 12), (0, 0), (1, 31), (2, 0)]),
    );
    assert_eq!(layout(&[(0, 0), (32, 0), (0, 0)]), (1, vec![(0, 32), (0, 0), (0, 0)]));
}

#[test]
fn fields_with_slots_of_their_own_stand_apart() {
    assert_eq!(layout(&[(32, 2), (32, 1), (8, 0)]), (4, vec![(0, 0), (2, 0), (3, 24)]));
    assert_eq!(layout(&[(8, 0), (32, 2), (8, 0)]).1, vec![(0, 24), (1, 0), (3, 24)]);
}

#[test]
fn slots_filled_in_part_are_not_counted_before_whole_slots() {
    assert_eq!(layout(&[(1, 0), (32, 1)]), (1, vec![(0, 31), (1, 0)]));
}

#[test]
fn counting_and_placing_agree_on_packed_fields() {
    let sizes = [0, 1, 16, 20, 32];
    for a in sizes {
        for b in sizes {
            for c in sizes {
                let (counted, placed) = layout(&[(a, 0), (b, 0), (c, 0)]);
                assert_eq!(counted, 1 + placed.iter().map(|at| at.0).max().unwrap());
                assert_eq!(counted, 1 + placed[2].0);
            }
        }
    }
}

#[test]
fn placed_fields_do_not_overlap() {
    let kinds = [(0, 0), (1, 0), (20, 0), (32, 0), (32, 1), (32, 3)];
    for a in kinds {
        for b in kinds {
            for c in kinds {
                let measures = [a, b, c];
                let (_, placed) = layout(&measures);
                assert_eq!(placed.len(), 3);
                for j in 0..3 {
                    assert!(placed[j].1 + measures[j].0 <= 32);
                    for i in 0..j {
                        assert!(placed[i].0 <= placed[j].0);
                        let one = owned(placed[i], measures[i]);
                        let other = owned(placed[j], measures[j]);
                        assert!(
                            one.is_empty()
                                || other.is_empty()
                                || one.end <= other.start
                                || other.end <= one.start
                        );
                    }
                }
            }
        }
    }
}

#[test]
fn counted_slots_hold_the_fields() {
    let measures = [(32, 2), (32, 1), (20, 0), (20, 0), (0, 0)];
    let (counted, placed) = layout(&measures);
    assert_eq!(counted, 5);
    for i in 0..measures.len() {
        assert!(owned(placed[i], measures[i]).all(|byte| byte / 32 < counted));
    }
}
