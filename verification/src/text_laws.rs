//! What the assembly text says: register names and decimal numerals.
use vstd::prelude::*;

use crate::riscv::{digit_text, int_text, nat_text, op_text, reg_text, Reg, RvOp, NUM_REGS};

verus! {

/// The register names are those of the RISC-V ABI, in index order: `x0`,
/// then `t0` to `t6`, then `a0` to `a7`, each a letter followed by the
/// register's number within its group.
pub proof fn law_register_names(r: Reg)
    requires
        r < NUM_REGS,
    ensures
        reg_text(r).len() == 2,
        reg_text(r)[0] == (if r == 0 {
            'x'
        } else if r < 8 {
            't'
        } else {
            'a'
        }),
        reg_text(r)[1] as int == ('0' as int) + (if r == 0 {
            0
        } else if r < 8 {
            r - 1
        } else {
            r - 8
        }),
{
    reveal_strlit("x0");
    reveal_strlit("t0");
    reveal_strlit("t1");
    reveal_strlit("t2");
    reveal_strlit("t3");
    reveal_strlit("t4");
    reveal_strlit("t5");
    reveal_strlit("t6");
    reveal_strlit("a0");
    reveal_strlit("a1");
    reveal_strlit("a2");
    reveal_strlit("a3");
    reveal_strlit("a4");
    reveal_strlit("a5");
    reveal_strlit("a6");
    reveal_strlit("a7");
}

/// No two registers share a name: the text of an instruction names the
/// registers it uses.
pub proof fn law_register_names_distinct(r1: Reg, r2: Reg)
    requires
        r1 < NUM_REGS,
        r2 < NUM_REGS,
        r1 != r2,
    ensures
        reg_text(r1) != reg_text(r2),
{
    law_register_names(r1);
    law_register_names(r2);
    if reg_text(r1) == reg_text(r2) {
        assert(reg_text(r1)[0] == reg_text(r2)[0]);
        assert(reg_text(r1)[1] == reg_text(r2)[1]);
    }
}

/// Whether every character of `s` is a decimal digit.
pub open spec fn decimal_digits(s: Seq<char>) -> bool {
    forall|i: int| 0 <= i < s.len() ==> '0' <= #[trigger] s[i] && s[i] <= '9'
}

/// The number that the decimal digits `s` spell, most significant first.
pub open spec fn decimal_value(s: Seq<char>) -> int
    decreases s.len(),
{
    if s.len() == 0 {
        0
    } else {
        decimal_value(s.drop_last()) * 10 + ((s.last() as int) - ('0' as int))
    }
}

/// The text of a digit is that digit's character.
pub proof fn law_digit_text(d: nat)
    requires
        d < 10,
    ensures
        digit_text(d).len() == 1,
        digit_text(d)[0] as int == ('0' as int) + d,
{
    reveal_strlit("0");
    reveal_strlit("1");
    reveal_strlit("2");
    reveal_strlit("3");
    reveal_strlit("4");
    reveal_strlit("5");
    reveal_strlit("6");
    reveal_strlit("7");
    reveal_strlit("8");
    reveal_strlit("9");
}

/// The text of a number is its decimal numeral: digits only, not empty,
/// with no leading zero (but for `0` itself), and spelling the number.
pub proof fn law_decimal_text(n: nat)
    ensures
        nat_text(n).len() > 0,
        decimal_digits(nat_text(n)),
        decimal_value(nat_text(n)) == n,
        n > 0 ==> nat_text(n)[0] != '0',
    decreases n,
{
    if n < 10 {
        law_digit_text(n);
        let t = nat_text(n);
        assert(t.drop_last() =~= Seq::<char>::empty());
        assert(decimal_value(Seq::<char>::empty()) == 0);
        assert(decimal_value(t) == decimal_value(t.drop_last()) * 10 + ((t.last() as int) - ('0' as int)));
    } else {
        law_decimal_text(n / 10);
        law_digit_text(n % 10);
        let a = nat_text(n / 10);
        let t = nat_text(n);
        assert(t == a + digit_text(n % 10));
        assert(t.drop_last() =~= a);
        assert(t.last() == digit_text(n % 10)[0]);
        assert(t[0] == a[0]);
        vstd::arithmetic::div_mod::lemma_fundamental_div_mod(n as int, 10);
        assert(decimal_value(t) == decimal_value(a) * 10 + ((t.last() as int) - ('0' as int)));
        assert forall|i: int| 0 <= i < t.len() implies '0' <= #[trigger] t[i] && t[i] <= '9' by {
            if i < a.len() {
                assert(t[i] == a[i]);
            }
        }
    }
}

/// The text of an `i32` is its decimal numeral, after a `-` when it is
/// negative: the digits spell the number's magnitude.
pub proof fn law_integer_text(i: i32)
    ensures
        i >= 0 ==> decimal_digits(int_text(i)) && int_text(i).len() > 0 && decimal_value(int_text(i)) == i,
        i < 0 ==> int_text(i).len() > 1 && int_text(i)[0] == '-' && decimal_digits(int_text(i).drop_first())
            && decimal_value(int_text(i).drop_first()) == -i,
{
    reveal_strlit("-");
    if i < 0 {
        law_decimal_text((-i) as nat);
        assert(int_text(i).drop_first() =~= nat_text((-i) as nat));
    } else {
        law_decimal_text(i as nat);
    }
}

/// No two operations share a mnemonic.
pub proof fn law_operation_names_distinct(a: RvOp, b: RvOp)
    requires
        a != b,
    ensures
        op_text(a) != op_text(b),
{
    reveal_strlit("add");
    reveal_strlit("sub");
    reveal_strlit("mul");
    reveal_strlit("div");
    reveal_strlit("rem");
    reveal_strlit("xor");
    reveal_strlit("slt");
    reveal_strlit("and");
    reveal_strlit("or");
    if op_text(a) == op_text(b) {
        assert(op_text(a).len() == op_text(b).len());
        assert(op_text(a)[0] == op_text(b)[0]);
        assert(op_text(a)[1] == op_text(b)[1]);
    }
}

} // verus!
