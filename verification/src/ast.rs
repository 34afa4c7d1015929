//! The syntax tree: nodes, the working node stack and the symbol table.

use vstd::prelude::*;
use crate::tokens::{str_eq, Tok};
use crate::tree::{
    lemma_node_view, lemma_trees_push, trees, val_view, AstView, Tree, Val,
};

verus! {

pub type SymID = usize;

pub type NodeID = usize;

/// Symbol id that every fresh table gives to the builtin `print`.
pub const PRINT_SYM_ID: usize = 0;

/// The value that a node may carry.
#[derive(Debug, PartialEq)]
pub enum NodeVal {
    Int(i32),
    /// A floating literal, held as its IEEE-754 bit pattern.
    Float(u64),
    String(String),
    Bool(bool),
    Sym(SymID),
}

/// One node of the tree. `children` is kept in reverse of source order,
/// because every reduction pops the rightmost symbol first.
#[derive(Debug)]
pub struct Node {
    pub token: Tok,
    pub id: NodeID,
    pub children: Vec<Node>,
    pub val: Option<NodeVal>,
}

/// The tree under construction. When parsing has completed, `node_stack[0]`
/// is the program root. `symbol_table[i]` is the name whose symbol id is `i`.
#[derive(Debug)]
pub struct Ast {
    pub node_stack: Vec<Node>,
    pub symbol_table: Vec<String>,
    /// The id given to the node made last; the next node gets the successor.
    pub node_counter: usize,
}

/// Two's-complement reduction of an integer that lies within one range
/// width of the `i32` range.
pub open spec fn wrap_i32(n: int) -> i32 {
    if n > i32::MAX {
        (n - 0x1_0000_0000) as i32
    } else if n < i32::MIN {
        (n + 0x1_0000_0000) as i32
    } else {
        n as i32
    }
}

/// The result of folding `left op right` at parse time: defined for `Plus`
/// and `Minus` on two `Int` values, with wrap-around.
pub open spec fn folded(op: Tok, left: Val, right: Val) -> Option<i32> {
    match (left, right) {
        (Val::Int(l), Val::Int(r)) => if op == Tok::Plus {
            Some(wrap_i32(l + r))
        } else if op == Tok::Minus {
            Some(wrap_i32(l - r))
        } else {
            None
        },
        _ => None,
    }
}

/// No name occurs twice.
pub open spec fn distinct_names(names: Seq<Seq<char>>) -> bool {
    forall|i: int, j: int| 0 <= i < j < names.len() ==> names[i] != names[j]
}

/// The id under which `name` is registered, if it is.
pub open spec fn sym_id_of(names: Seq<Seq<char>>, name: Seq<char>) -> Option<int> {
    if names.contains(name) {
        Some(names.index_of(name))
    } else {
        None
    }
}

/// Interning: the table after looking `name` up, and the id that the lookup
/// gives. A known name keeps its id; a new one gets the table's size.
pub open spec fn intern(names: Seq<Seq<char>>, name: Seq<char>) -> (Seq<Seq<char>>, int) {
    match sym_id_of(names, name) {
        Some(id) => (names, id),
        None => (names.push(name), names.len() as int),
    }
}

/// The id that interning gives is a position of the resulting table, and the
/// name stands there. The table only grows: every name keeps its id.
pub proof fn lemma_intern_registers(names: Seq<Seq<char>>, name: Seq<char>)
    ensures
        0 <= intern(names, name).1 < intern(names, name).0.len(),
        intern(names, name).0[intern(names, name).1] == name,
        distinct_names(names) ==> distinct_names(intern(names, name).0),
        names.len() <= intern(names, name).0.len(),
        forall|i: int| 0 <= i < names.len() ==> intern(names, name).0[i] == names[i],
{
    if names.contains(name) {
    } else {
        let after = names.push(name);
        assert(after[names.len() as int] == name);
        if distinct_names(names) {
            assert forall|i: int, j: int| 0 <= i < j < after.len() implies after[i] != after[j] by {
                if j == names.len() {
                    assert(after[i] == names[i]);
                    assert(names.contains(names[i]));
                }
            }
        }
    }
}

/// Looking the same name up twice gives the same id, and the second lookup
/// leaves the table as the first left it.
pub proof fn lemma_intern_idempotent(names: Seq<Seq<char>>, name: Seq<char>)
    requires
        distinct_names(names),
    ensures
        intern(intern(names, name).0, name) == intern(names, name),
{
    lemma_intern_registers(names, name);
    let (after, id) = intern(names, name);
    assert(after.contains(name));
    let again = after.index_of(name);
    assert(after[again] == name);
    if again != id {
        if again < id {
            assert(after[again] != after[id]);
        } else {
            assert(after[id] != after[again]);
        }
    }
}

/// Ids grow strictly across distinct new names: the first of two names that
/// the table does not yet hold gets the table's size, the second the next
/// number.
pub proof fn lemma_intern_increasing(names: Seq<Seq<char>>, first: Seq<char>, second: Seq<char>)
    requires
        first != second,
        !names.contains(first),
        !names.contains(second),
    ensures
        intern(names, first).1 == names.len(),
        intern(intern(names, first).0, second).1 == names.len() + 1,
        intern(names, first).1 < intern(intern(names, first).0, second).1,
{
    let after = names.push(first);
    if after.contains(second) {
        let k = choose|k: int| 0 <= k < after.len() && after[k] == second;
        if k < names.len() {
            assert(names[k] == second);
            assert(names.contains(second));
        }
    }
}

impl Node {
    /// A childless, valueless node of the given kind with id 0.
    pub fn new(token: Tok) -> (node: Node)
        ensures
            node@ == Tree::leaf(token, 0, None),
    {
        let node = Node { token, children: Vec::new(), val: None, id: 0 };
        proof {
            lemma_node_view(node);
            assert(trees(node.children@) =~= Seq::<Tree>::empty());
        }
        node
    }

    /// True exactly for nodes whose value is an `Int`, `Float`, `String` or
    /// `Bool`; false for a symbol and for no value.
    pub fn has_const_val(&self) -> (constant: bool)
        ensures
            constant == self@.is_const(),
    {
        proof {
            lemma_node_view(*self);
        }
        match &self.val {
            Some(NodeVal::Sym(_)) | None => false,
            _ => true,
        }
    }
}

impl Ast {
    /// The names of the symbol table, by id.
    pub open spec fn names(&self) -> Seq<Seq<char>> {
        self.symbol_table@.map_values(|s: String| s@)
    }

    /// The symbol table holds no name twice.
    pub open spec fn wf(&self) -> bool {
        distinct_names(self.names())
    }

    /// An empty tree whose symbol table holds the builtin `print` under id 0.
    /// Node ids start at 2.
    pub fn init() -> (ast: Ast)
        ensures
            ast.wf(),
            ast@ == (AstView { stack: Seq::empty(), names: seq!["print"@], counter: 1 }),
    {
        let ast = Ast {
            node_stack: Vec::new(),
            symbol_table: Ast::init_symbol_table(),
            node_counter: 1,
        };
        assert(ast.names() =~= seq!["print"@]);
        assert(ast@.stack =~= Seq::<Tree>::empty());
        ast
    }

    fn init_symbol_table() -> (table: Vec<String>)
        ensures
            table@.len() == 1,
            table@[PRINT_SYM_ID as int]@ == "print"@,
    {
        let mut table: Vec<String> = Vec::new();
        table.push("print".to_owned());
        table
    }

    /// Constant folding: for `Plus` or `Minus` on two `Int` values, pushes
    /// one `Int` literal node holding the wrapped result. Any other operator
    /// or operand shape pushes nothing.
    pub fn synthesize_expr(&mut self, op: Tok, left_val: NodeVal, right_val: NodeVal)
        requires
            old(self).node_counter < usize::MAX,
        ensures
            final(self).symbol_table == old(self).symbol_table,
            final(self)@ == match folded(op, left_val@, right_val@) {
                Some(v) => old(self)@.push_leaf(Tok::Int, Some(Val::Int(v))),
                None => old(self)@,
            },
    {
        match op {
            Tok::Plus => match (left_val, right_val) {
                (NodeVal::Int(l), NodeVal::Int(r)) => {
                    self.push_node(Tok::Int, Some(NodeVal::Int(l.wrapping_add(r))));
                },
                _ => {},
            },
            Tok::Minus => match (left_val, right_val) {
                (NodeVal::Int(l), NodeVal::Int(r)) => {
                    self.push_node(Tok::Int, Some(NodeVal::Int(l.wrapping_sub(r))));
                },
                _ => {},
            },
            _ => {},
        }
    }

    /// Drops all nodes and all symbols. Node ids are not given out again.
    pub fn clear(&mut self)
        ensures
            final(self).wf(),
            final(self)@ == (AstView {
                stack: Seq::empty(),
                names: Seq::empty(),
                counter: old(self)@.counter,
            }),
    {
        self.node_stack.clear();
        self.symbol_table.clear();
        assert(self.names() =~= Seq::<Seq<char>>::empty());
        assert(self@.stack =~= Seq::<Tree>::empty());
    }

    /// Makes a childless node with the next node id, without pushing it.
    pub fn new_node(&mut self, token: Tok, val: Option<NodeVal>) -> (node: Node)
        requires
            old(self).node_counter < usize::MAX,
        ensures
            final(self).node_counter == old(self).node_counter + 1,
            final(self).node_stack == old(self).node_stack,
            final(self).symbol_table == old(self).symbol_table,
            node@ == Tree::leaf(token, final(self).node_counter, val_view(val)),
            node.children@.len() == 0,
    {
        self.node_counter += 1;
        let node = Node { id: self.node_counter, token, val, children: Vec::new() };
        proof {
            lemma_node_view(node);
            assert(trees(node.children@) =~= Seq::<Tree>::empty());
        }
        node
    }

    /// Makes a childless node with the next node id and pushes it.
    pub fn push_node(&mut self, token: Tok, val: Option<NodeVal>)
        requires
            old(self).node_counter < usize::MAX,
        ensures
            final(self).symbol_table == old(self).symbol_table,
            final(self)@ == old(self)@.push_leaf(token, val_view(val)),
    {
        let new_node = self.new_node(token, val);
        proof {
            lemma_trees_push(self.node_stack@, new_node);
        }
        self.node_stack.push(new_node);
    }

    /// The id of `sym`: the one it already has, or else the table's size,
    /// under which it is then registered.
    pub fn get_sym_id(&mut self, sym: &str) -> (id: SymID)
        requires
            old(self).wf(),
        ensures
            final(self).wf(),
            final(self).node_stack == old(self).node_stack,
            final(self).node_counter == old(self).node_counter,
            (final(self).names(), id as int) == intern(old(self).names(), sym@),
            final(self)@ == (AstView { names: intern(old(self)@.names, sym@).0, ..old(self)@ }),
    {
        let num_symbols: usize = self.symbol_table.len();
        let mut i: usize = 0;
        while i < num_symbols
            invariant
                i <= num_symbols,
                num_symbols == self.symbol_table@.len(),
                *self == *old(self),
                self.wf(),
                forall|k: int| 0 <= k < i ==> self.names()[k] != sym@,
            decreases num_symbols - i,
        {
            if str_eq(self.symbol_table[i].as_str(), sym) {
                proof {
                    let names = self.names();
                    assert(names[i as int] == sym@);
                    assert(names.contains(sym@));
                    let found = names.index_of(sym@);
                    assert(names[found] == sym@);
                    if found != i {
                        if found < i {
                            assert(names[found] != names[i as int]);
                        } else {
                            assert(names[i as int] != names[found]);
                        }
                    }
                }
                return i;
            }
            i += 1;
        }
        proof {
            let names = self.names();
            if names.contains(sym@) {
                let k = choose|k: int| 0 <= k < names.len() && names[k] == sym@;
                assert(names[k] != sym@);
            }
            lemma_intern_registers(names, sym@);
        }
        self.symbol_table.push(sym.to_owned());
        assert(self.names() =~= old(self).names().push(sym@));
        num_symbols
    }
}

} // verus!
