//! Rendering of expressions in the surface syntax: prefix operator
//! applications, constants as signed decimals with a width suffix, and
//! symbols by their registered names.
use vstd::prelude::*;

verus! {

use crate::arena::Arena;
use crate::ast::{children_lt, node_ok, AstIdx, Entry, SimpleAst};
use crate::Predicate;

/// One decimal digit.
pub open spec fn digit_char(n: nat) -> char {
    if n == 0 {
        '0'
    } else if n == 1 {
        '1'
    } else if n == 2 {
        '2'
    } else if n == 3 {
        '3'
    } else if n == 4 {
        '4'
    } else if n == 5 {
        '5'
    } else if n == 6 {
        '6'
    } else if n == 7 {
        '7'
    } else if n == 8 {
        '8'
    } else {
        '9'
    }
}

/// Unsigned decimal rendering.
pub open spec fn dec_str(n: nat) -> Seq<char>
    decreases n,
{
    if n < 10 {
        seq![digit_char(n)]
    } else {
        dec_str(n / 10) + seq![digit_char(n % 10)]
    }
}

/// The signed-decimal rendering of a raw 64-bit payload: values with the top
/// bit set display as the negative they encode.
pub open spec fn sdec_str(c: u64) -> Seq<char> {
    if c < 0x8000_0000_0000_0000 {
        dec_str(c as nat)
    } else {
        seq!['-'] + dec_str((0x1_0000_0000_0000_0000 - c) as nat)
    }
}

/// The spelling of a comparison predicate.
pub open spec fn pred_str(p: Predicate) -> Seq<char> {
    match p {
        Predicate::Eq => seq!['=', '='],
        Predicate::Ne => seq!['!', '='],
        Predicate::Ugt => seq!['>'],
        Predicate::Uge => seq!['>', '='],
        Predicate::Ult => seq!['<'],
        Predicate::Ule => seq!['<', '='],
        Predicate::Sgt => seq!['>', 's'],
        Predicate::Sge => seq!['>', '=', 's'],
        Predicate::Slt => seq!['<', 's'],
        Predicate::Sle => seq!['<', '=', 's'],
    }
}

/// The width suffix of a leaf.
pub open spec fn width_suffix(width: u8) -> Seq<char> {
    seq![':', 'i'] + dec_str(width as nat)
}

/// The rendering of the node behind position `i`: a prefix application per
/// operator, a signed decimal with width suffix per constant, the registered
/// name with width suffix per symbol (an unregistered identifier renders as
/// an empty name).
pub open spec fn print_spec(nodes: Seq<Entry>, syms: Seq<(String, u8, AstIdx)>, i: int) -> Seq<
    char,
>
    decreases i,
{
    if 0 <= i < nodes.len() && children_lt(nodes[i].0, i) {
        match nodes[i].0 {
            SimpleAst::Constant { c, width } => sdec_str(c) + width_suffix(width),
            SimpleAst::Symbol { id, width } => (if id < syms.len() {
                syms[id as int].0@
            } else {
                Seq::empty()
            }) + width_suffix(width),
            SimpleAst::Add { a, b } => seq!['(', '+', ' '] + print_spec(nodes, syms, a.0 as int)
                + seq![' '] + print_spec(nodes, syms, b.0 as int) + seq![')'],
            SimpleAst::Mul { a, b } => seq!['(', '*', ' '] + print_spec(nodes, syms, a.0 as int)
                + seq![' '] + print_spec(nodes, syms, b.0 as int) + seq![')'],
            SimpleAst::Pow { a, b } => seq!['(', '*', '*', ' '] + print_spec(
                nodes,
                syms,
                a.0 as int,
            ) + seq![' '] + print_spec(nodes, syms, b.0 as int) + seq![')'],
            SimpleAst::And { a, b } => seq!['(', '&', ' '] + print_spec(nodes, syms, a.0 as int)
                + seq![' '] + print_spec(nodes, syms, b.0 as int) + seq![')'],
            SimpleAst::Or { a, b } => seq!['(', '|', ' '] + print_spec(nodes, syms, a.0 as int)
                + seq![' '] + print_spec(nodes, syms, b.0 as int) + seq![')'],
            SimpleAst::Xor { a, b } => seq!['(', '^', ' '] + print_spec(nodes, syms, a.0 as int)
                + seq![' '] + print_spec(nodes, syms, b.0 as int) + seq![')'],
            SimpleAst::Neg { a } => seq!['(', '~', ' '] + print_spec(nodes, syms, a.0 as int)
                + seq![')'],
            SimpleAst::Lshr { a, b } => seq!['(', '>', '>', ' '] + print_spec(
                nodes,
                syms,
                a.0 as int,
            ) + seq![' '] + print_spec(nodes, syms, b.0 as int) + seq![')'],
            SimpleAst::Zext { a, to } => seq!['(', 'z', 'x', ' '] + print_spec(
                nodes,
                syms,
                a.0 as int,
            ) + seq![' '] + dec_str(to as nat) + seq![')'],
            SimpleAst::Trunc { a, to } => seq!['(', 't', 'r', ' '] + print_spec(
                nodes,
                syms,
                a.0 as int,
            ) + seq![' '] + dec_str(to as nat) + seq![')'],
            SimpleAst::Icmp { pred, a, b } => seq!['(', 'i', 'c', 'm', 'p', ' '] + pred_str(pred)
                + seq![' '] + print_spec(nodes, syms, a.0 as int) + seq![' '] + print_spec(
                nodes,
                syms,
                b.0 as int,
            ) + seq![')'],
            SimpleAst::Select { c, t, f } => seq!['(', 's', 'e', 'l', 'e', 'c', 't', ' ']
                + print_spec(nodes, syms, c.0 as int) + seq![' '] + print_spec(
                nodes,
                syms,
                t.0 as int,
            ) + seq![' '] + print_spec(nodes, syms, f.0 as int) + seq![')'],
        }
    } else {
        Seq::empty()
    }
}

/// One digit as text.
fn digit_string(n: u64) -> (s: String)
    requires
        n < 10,
    ensures
        s@ == seq![digit_char(n as nat)],
{
    proof {
        reveal_strlit("0");
        reveal_strlit("1");
        reveal_strlit("2");
        reveal_strlit("3");
        reveal_strlit("4");
        reveal_strlit("5");
        reveal_strlit("6");
        reveal_strlit("7");
        reveal_strlit("8");
        reveal_strlit("9");
    }
    if n == 0 {
        "0".to_owned()
    } else if n == 1 {
        "1".to_owned()
    } else if n == 2 {
        "2".to_owned()
    } else if n == 3 {
        "3".to_owned()
    } else if n == 4 {
        "4".to_owned()
    } else if n == 5 {
        "5".to_owned()
    } else if n == 6 {
        "6".to_owned()
    } else if n == 7 {
        "7".to_owned()
    } else if n == 8 {
        "8".to_owned()
    } else {
        "9".to_owned()
    }
}

/// Unsigned decimal rendering.
fn dec_string(n: u64) -> (s: String)
    ensures
        s@ == dec_str(n as nat),
    decreases n,
{
    if n < 10 {
        digit_string(n)
    } else {
        let mut s = dec_string(n / 10);
        let last = digit_string(n % 10);
        s.append(last.as_str());
        s
    }
}

/// Signed decimal rendering of a raw payload.
fn sdec_string(c: u64) -> (s: String)
    ensures
        s@ == sdec_str(c),
{
    proof {
        reveal_strlit("-");
    }
    if c < 0x8000_0000_0000_0000 {
        dec_string(c)
    } else {
        let mut s = "-".to_owned();
        proof {
            assert(c >= 0x8000_0000_0000_0000 ==> ((!c + 1) as u64 == 0x1_0000_0000_0000_0000 - c
                && !c < 0xffff_ffff_ffff_ffffu64)) by (bit_vector);
        }
        let digits = dec_string(!c + 1);
        s.append(digits.as_str());
        s
    }
}

/// The spelling of a predicate as text.
fn pred_string(p: Predicate) -> (s: String)
    ensures
        s@ == pred_str(p),
{
    proof {
        reveal_strlit("==");
        reveal_strlit("!=");
        reveal_strlit(">");
        reveal_strlit(">=");
        reveal_strlit("<");
        reveal_strlit("<=");
        reveal_strlit(">s");
        reveal_strlit(">=s");
        reveal_strlit("<s");
        reveal_strlit("<=s");
    }
    match p {
        Predicate::Eq => "==".to_owned(),
        Predicate::Ne => "!=".to_owned(),
        Predicate::Ugt => ">".to_owned(),
        Predicate::Uge => ">=".to_owned(),
        Predicate::Ult => "<".to_owned(),
        Predicate::Ule => "<=".to_owned(),
        Predicate::Sgt => ">s".to_owned(),
        Predicate::Sge => ">=s".to_owned(),
        Predicate::Slt => "<s".to_owned(),
        Predicate::Sle => "<=s".to_owned(),
    }
}

impl Arena {
    /// Render the expression behind `i` in the surface syntax.
    pub fn ast_string(&self, i: AstIdx) -> (s: String)
        requires
            self.wf(),
            self.valid(i),
        ensures
            s@ == print_spec(self@, self.symbols@, i.0 as int),
        decreases i.0,
    {
        proof {
            assert(node_ok(self@, i.0 as int));
            reveal_strlit("(+ ");
            reveal_strlit("(* ");
            reveal_strlit("(** ");
            reveal_strlit("(& ");
            reveal_strlit("(| ");
            reveal_strlit("(^ ");
            reveal_strlit("(~ ");
            reveal_strlit("(>> ");
            reveal_strlit("(zx ");
            reveal_strlit("(tr ");
            reveal_strlit("(icmp ");
            reveal_strlit("(select ");
            reveal_strlit(" ");
            reveal_strlit(")");
            reveal_strlit(":i");
        }
        match self.get_node(i) {
            SimpleAst::Constant { c, width } => {
                let mut s = sdec_string(c);
                s.append(":i");
                let wtxt = dec_string(width as u64);
                s.append(wtxt.as_str());
                s
            },
            SimpleAst::Symbol { id, width } => {
                let mut s = if (id as usize) < self.symbols.len() {
                    self.get_symbol_name(id)
                } else {
                    String::new()
                };
                s.append(":i");
                let wtxt = dec_string(width as u64);
                s.append(wtxt.as_str());
                s
            },
            SimpleAst::Add { a, b } => {
                let mut s = "(+ ".to_owned();
                let sa = self.ast_string(a);
                s.append(sa.as_str());
                s.append(" ");
                let sb = self.ast_string(b);
                s.append(sb.as_str());
                s.append(")");
                s
            },
            SimpleAst::Mul { a, b } => {
                let mut s = "(* ".to_owned();
                let sa = self.ast_string(a);
                s.append(sa.as_str());
                s.append(" ");
                let sb = self.ast_string(b);
                s.append(sb.as_str());
                s.append(")");
                s
            },
            SimpleAst::Pow { a, b } => {
                let mut s = "(** ".to_owned();
                let sa = self.ast_string(a);
                s.append(sa.as_str());
                s.append(" ");
                let sb = self.ast_string(b);
                s.append(sb.as_str());
                s.append(")");
                s
            },
            SimpleAst::And { a, b } => {
                let mut s = "(& ".to_owned();
                let sa = self.ast_string(a);
                s.append(sa.as_str());
                s.append(" ");
                let sb = self.ast_string(b);
                s.append(sb.as_str());
                s.append(")");
                s
            },
            SimpleAst::Or { a, b } => {
                let mut s = "(| ".to_owned();
                let sa = self.ast_string(a);
                s.append(sa.as_str());
                s.append(" ");
                let sb = self.ast_string(b);
                s.append(sb.as_str());
                s.append(")");
                s
            },
            SimpleAst::Xor { a, b } => {
                let mut s = "(^ ".to_owned();
                let sa = self.ast_string(a);
                s.append(sa.as_str());
                s.append(" ");
                let sb = self.ast_string(b);
                s.append(sb.as_str());
                s.append(")");
                s
            },
            SimpleAst::Neg { a } => {
                let mut s = "(~ ".to_owned();
                let sa = self.ast_string(a);
                s.append(sa.as_str());
                s.append(")");
                s
            },
            SimpleAst::Lshr { a, b } => {
                let mut s = "(>> ".to_owned();
                let sa = self.ast_string(a);
                s.append(sa.as_str());
                s.append(" ");
                let sb = self.ast_string(b);
                s.append(sb.as_str());
                s.append(")");
                s
            },
            SimpleAst::Zext { a, to } => {
                let mut s = "(zx ".to_owned();
                let sa = self.ast_string(a);
                s.append(sa.as_str());
                s.append(" ");
                let wtxt = dec_string(to as u64);
                s.append(wtxt.as_str());
                s.append(")");
                s
            },
            SimpleAst::Trunc { a, to } => {
                let mut s = "(tr ".to_owned();
                let sa = self.ast_string(a);
                s.append(sa.as_str());
                s.append(" ");
                let wtxt = dec_string(to as u64);
                s.append(wtxt.as_str());
                s.append(")");
                s
            },
            SimpleAst::Icmp { pred, a, b } => {
                let mut s = "(icmp ".to_owned();
                let ptxt = pred_string(pred);
                s.append(ptxt.as_str());
                s.append(" ");
                let sa = self.ast_string(a);
                s.append(sa.as_str());
                s.append(" ");
                let sb = self.ast_string(b);
                s.append(sb.as_str());
                s.append(")");
                s
            },
            SimpleAst::Select { c, t, f } => {
                let mut s = "(select ".to_owned();
                let sc = self.ast_string(c);
                s.append(sc.as_str());
                s.append(" ");
                let st = self.ast_string(t);
                s.append(st.as_str());
                s.append(" ");
                let sf = self.ast_string(f);
                s.append(sf.as_str());
                s.append(")");
                s
            },
        }
    }
}

} // verus!
