//! The menu-driven session.
//!
//! The session is a function of the input lines alone: [`spec_session`]
//! states, line by line, what the program prints and how the store changes,
//! and [`run_program`] is the executable loop proved equal to it. A front
//! end feeds it the lines read from its operator and prints what comes
//! back; an exhausted input behaves like blank lines, which is how an
//! interactive run ends at end of input.

use vstd::prelude::*;

use crate::amount::is_float_text;
use crate::amount::is_valid_amount;
use crate::menu::MainMenu;
use crate::menu::lines_view;
use crate::menu::menu_lines;
use crate::store::Bill;
use crate::store::BillView;
use crate::store::Bills;
use crate::store::bill_line;
use crate::store::bill_views;
use crate::store::del;
use crate::store::has_name;
use crate::store::set_amount;
use crate::store::upsert;
use crate::text::trim_str;
use crate::text::trimmed;

verus! {

/// The prompt printed before a bill name is read.
pub open spec fn name_prompt() -> Seq<char> {
    "Bill name:"@
}

/// The prompt printed before an amount is read.
pub open spec fn amount_prompt() -> Seq<char> {
    "Amount:"@
}

/// The notice printed for an amount that does not parse.
pub open spec fn error_line() -> Seq<char> {
    "Error"@
}

/// The prompt printed before a name is read for remove and update.
pub open spec fn enter_name_line() -> Seq<char> {
    "Enter name"@
}

/// The indicator printed when a remove or update found its name.
pub open spec fn success_line() -> Seq<char> {
    "Success"@
}

/// The indicator printed when a remove or update missed its name.
pub open spec fn fail_line() -> Seq<char> {
    "Fail"@
}

/// The view of an optional returned line.
pub open spec fn str_opt_view(r: Option<String>) -> Option<Seq<char>> {
    match r {
        Some(s) => Some(s@),
        None => None,
    }
}

/// What one read returns: the trimmed line, or nothing on an empty line or
/// exhausted input.
pub open spec fn read_result(lines: Seq<Seq<char>>, i: int) -> Option<Seq<char>> {
    if 0 <= i < lines.len() {
        if trimmed(lines[i]).len() == 0 {
            None
        } else {
            Some(trimmed(lines[i]))
        }
    } else {
        None
    }
}

/// The cursor after one read: a line is consumed when one is there.
pub open spec fn next_cursor(lines: Seq<Seq<char>>, i: int) -> int {
    if 0 <= i < lines.len() {
        i + 1
    } else {
        i
    }
}

/// What the amount reader leaves behind: the cursor, the accepted amount
/// text if any, and the error notices it printed.
pub ghost struct AmountStep {
    pub cursor: int,
    pub result: Option<Seq<char>>,
    pub output: Seq<Seq<char>>,
}

/// The amount-reading loop: each line is consumed in turn; an empty line or
/// exhausted input abandons, a well-formed amount is accepted, and any other
/// line earns an error notice and another try.
pub open spec fn amount_steps(lines: Seq<Seq<char>>, i: int) -> AmountStep
    decreases lines.len() - i,
{
    if i < 0 || i >= lines.len() {
        AmountStep { cursor: i, result: None, output: Seq::empty() }
    } else {
        let t = trimmed(lines[i]);
        if t.len() == 0 {
            AmountStep { cursor: i + 1, result: None, output: Seq::empty() }
        } else if is_float_text(t) {
            AmountStep { cursor: i + 1, result: Some(t), output: Seq::empty() }
        } else {
            let rest = amount_steps(lines, i + 1);
            AmountStep {
                cursor: rest.cursor,
                result: rest.result,
                output: seq![error_line()] + rest.output,
            }
        }
    }
}

/// What one menu action leaves behind: the cursor, the store, and what it
/// printed.
pub ghost struct ActionStep {
    pub cursor: int,
    pub bills: Seq<BillView>,
    pub output: Seq<Seq<char>>,
}

/// The listing that the view action prints: one line per record, in store
/// order.
pub open spec fn listing(s: Seq<BillView>) -> Seq<Seq<char>> {
    s.map_values(|b: BillView| bill_line(b))
}

/// The add action: prompt for a name (an empty line abandons), then for an
/// amount; a completed pair is inserted into the store.
pub open spec fn spec_add_bill(bills: Seq<BillView>, lines: Seq<Seq<char>>, i: int) -> ActionStep {
    match read_result(lines, i) {
        None => ActionStep {
            cursor: next_cursor(lines, i),
            bills,
            output: seq![name_prompt()],
        },
        Some(name) => {
            let am = amount_steps(lines, next_cursor(lines, i));
            let out = seq![name_prompt()] + seq![amount_prompt()] + am.output;
            match am.result {
                None => ActionStep { cursor: am.cursor, bills, output: out },
                Some(a) => ActionStep {
                    cursor: am.cursor,
                    bills: upsert(bills, BillView { name, amount: a }),
                    output: out,
                },
            }
        },
    }
}

/// The remove action: the listing, a prompt for a name (an empty line
/// abandons), then the delete with its success or failure indicator.
pub open spec fn spec_remove_bill(bills: Seq<BillView>, lines: Seq<Seq<char>>, i: int) -> ActionStep {
    let out0 = listing(bills) + seq![enter_name_line()];
    match read_result(lines, i) {
        None => ActionStep { cursor: next_cursor(lines, i), bills, output: out0 },
        Some(name) => ActionStep {
            cursor: next_cursor(lines, i),
            bills: del(bills, name),
            output: out0 + seq![if has_name(bills, name) {
                success_line()
            } else {
                fail_line()
            }],
        },
    }
}

/// The update action: the listing, a prompt for a name, a prompt for an
/// amount (an empty line abandons either), then the amount update with its
/// success or failure indicator.
pub open spec fn spec_update_bill(bills: Seq<BillView>, lines: Seq<Seq<char>>, i: int) -> ActionStep {
    let out0 = listing(bills) + seq![enter_name_line()];
    match read_result(lines, i) {
        None => ActionStep { cursor: next_cursor(lines, i), bills, output: out0 },
        Some(name) => {
            let am = amount_steps(lines, next_cursor(lines, i));
            let out = out0 + seq![amount_prompt()] + am.output;
            match am.result {
                None => ActionStep { cursor: am.cursor, bills, output: out },
                Some(a) => ActionStep {
                    cursor: am.cursor,
                    bills: set_amount(bills, name, a),
                    output: out + seq![if has_name(bills, name) {
                        success_line()
                    } else {
                        fail_line()
                    }],
                },
            }
        },
    }
}

/// The amount reader never rewinds and never runs past the input.
proof fn lemma_amount_cursor(lines: Seq<Seq<char>>, i: int)
    requires
        0 <= i <= lines.len(),
    ensures
        i <= amount_steps(lines, i).cursor <= lines.len(),
    decreases lines.len() - i,
{
    if i < lines.len() {
        lemma_amount_cursor(lines, i + 1);
    }
}

/// The add action never rewinds and never runs past the input.
proof fn lemma_add_cursor(bills: Seq<BillView>, lines: Seq<Seq<char>>, i: int)
    requires
        0 <= i <= lines.len(),
    ensures
        i <= spec_add_bill(bills, lines, i).cursor <= lines.len(),
{
    if read_result(lines, i) is Some {
        lemma_amount_cursor(lines, i + 1);
    }
}

/// The update action never rewinds and never runs past the input.
proof fn lemma_update_cursor(bills: Seq<BillView>, lines: Seq<Seq<char>>, i: int)
    requires
        0 <= i <= lines.len(),
    ensures
        i <= spec_update_bill(bills, lines, i).cursor <= lines.len(),
{
    if read_result(lines, i) is Some {
        lemma_amount_cursor(lines, i + 1);
    }
}

/// The whole session from cursor `i`: the menu is rendered, a selection is
/// read, the selected action runs, and the cycle repeats; an empty line, an
/// exhausted input or an unrecognized token ends the session right after
/// the menu.
pub open spec fn spec_session(bills: Seq<BillView>, lines: Seq<Seq<char>>, i: int) -> Seq<
    Seq<char>,
>
    decreases lines.len() - i,
    when 0 <= i <= lines.len()
    via spec_session_decreases
{
    match read_result(lines, i) {
        None => menu_lines(),
        Some(tok) => {
            if tok == "1"@ {
                let st = spec_add_bill(bills, lines, i + 1);
                menu_lines() + st.output + spec_session(st.bills, lines, st.cursor)
            } else if tok == "2"@ {
                menu_lines() + listing(bills) + spec_session(bills, lines, i + 1)
            } else if tok == "3"@ {
                let st = spec_remove_bill(bills, lines, i + 1);
                menu_lines() + st.output + spec_session(st.bills, lines, st.cursor)
            } else if tok == "4"@ {
                let st = spec_update_bill(bills, lines, i + 1);
                menu_lines() + st.output + spec_session(st.bills, lines, st.cursor)
            } else {
                menu_lines()
            }
        },
    }
}

#[via_fn]
proof fn spec_session_decreases(bills: Seq<BillView>, lines: Seq<Seq<char>>, i: int) {
    if read_result(lines, i) is Some {
        lemma_add_cursor(bills, lines, i + 1);
        lemma_remove_cursor_inline(bills, lines, i + 1);
        lemma_update_cursor(bills, lines, i + 1);
        let st1 = spec_add_bill(bills, lines, i + 1);
        lemma_add_cursor(st1.bills, lines, i + 1);
    }
}

/// The remove action never rewinds and never runs past the input.
proof fn lemma_remove_cursor_inline(bills: Seq<BillView>, lines: Seq<Seq<char>>, i: int)
    requires
        0 <= i <= lines.len(),
    ensures
        i <= spec_remove_bill(bills, lines, i).cursor <= lines.len(),
{
}

/// Reads one line: the trimmed text, or nothing on an empty line or
/// exhausted input.
pub fn get_input(lines: &Vec<String>, i: &mut usize) -> (r: Option<String>)
    requires
        *old(i) <= lines@.len(),
    ensures
        *final(i) == next_cursor(lines_view(lines@), *old(i) as int),
        str_opt_view(r) == read_result(lines_view(lines@), *old(i) as int),
{
    if *i >= lines.len() {
        return None;
    }
    let line = &lines[*i];
    *i = *i + 1;
    let t = trim_str(line.as_str());
    if t.as_str().unicode_len() == 0 {
        None
    } else {
        Some(t)
    }
}

/// Reads an amount: prompts once, then keeps reading until a line trims to
/// a well-formed amount (an empty line or exhausted input abandons),
/// printing an error notice for every line that does not parse.
#[verifier::loop_isolation(false)]
pub fn get_bill_amount(lines: &Vec<String>, i: &mut usize, out: &mut Vec<String>) -> (r: Option<
    String,
>)
    requires
        *old(i) <= lines@.len(),
    ensures
        *final(i) == amount_steps(lines_view(lines@), *old(i) as int).cursor,
        str_opt_view(r) == amount_steps(lines_view(lines@), *old(i) as int).result,
        lines_view(final(out)@) == lines_view(old(out)@) + seq![amount_prompt()] + amount_steps(
            lines_view(lines@),
            *old(i) as int,
        ).output,
{
    let ghost lv = lines_view(lines@);
    let ghost i0 = *i as int;
    let ghost o0 = out@;
    out.push(String::from_str("Amount:"));
    proof {
        assert(lines_view(out@) =~= lines_view(o0) + seq![amount_prompt()]);
    }
    loop
        invariant
            i0 <= *i <= lines@.len(),
            lv == lines_view(lines@),
            amount_steps(lv, i0).cursor == amount_steps(lv, *i as int).cursor,
            amount_steps(lv, i0).result == amount_steps(lv, *i as int).result,
            lines_view(out@) + amount_steps(lv, *i as int).output == lines_view(o0) + seq![
                amount_prompt(),
            ] + amount_steps(lv, i0).output,
        decreases lines@.len() - *i,
    {
        let ghost ipre = *i as int;
        let r = get_input(lines, i);
        match r {
            None => {
                proof {
                    assert(amount_steps(lv, ipre).output =~= Seq::<Seq<char>>::empty());
                    assert(lines_view(out@) =~= lines_view(o0) + seq![amount_prompt()]
                        + amount_steps(lv, i0).output);
                }
                return None;
            },
            Some(t) => {
                if is_valid_amount(t.as_str()) {
                    proof {
                        assert(amount_steps(lv, ipre).output =~= Seq::<Seq<char>>::empty());
                        assert(lines_view(out@) =~= lines_view(o0) + seq![amount_prompt()]
                            + amount_steps(lv, i0).output);
                    }
                    return Some(t);
                }
                out.push(String::from_str("Error"));
                proof {
                    assert(amount_steps(lv, ipre).output == seq![error_line()] + amount_steps(
                        lv,
                        ipre + 1,
                    ).output);
                    assert(lines_view(out@) + amount_steps(lv, *i as int).output =~= lines_view(o0)
                        + seq![amount_prompt()] + amount_steps(lv, i0).output);
                }
            },
        }
    }
}

/// The add action: prompts for a name and an amount and inserts the pair;
/// an empty line at either prompt abandons with the store untouched.
pub fn add_bill(bills: &mut Bills, lines: &Vec<String>, i: &mut usize, out: &mut Vec<String>)
    requires
        old(bills).wf(),
        *old(i) <= lines@.len(),
    ensures
        final(bills).wf(),
        *final(i) == spec_add_bill(old(bills)@, lines_view(lines@), *old(i) as int).cursor,
        final(bills)@ == spec_add_bill(old(bills)@, lines_view(lines@), *old(i) as int).bills,
        lines_view(final(out)@) == lines_view(old(out)@) + spec_add_bill(
            old(bills)@,
            lines_view(lines@),
            *old(i) as int,
        ).output,
{
    let ghost lv = lines_view(lines@);
    let ghost i0 = *i as int;
    let ghost o0 = out@;
    let ghost b0 = bills@;
    out.push(String::from_str("Bill name:"));
    let name = match get_input(lines, i) {
        Some(n) => n,
        None => {
            proof {
                assert(lines_view(out@) =~= lines_view(o0) + spec_add_bill(b0, lv, i0).output);
            }
            return ;
        },
    };
    let amount = match get_bill_amount(lines, i, out) {
        Some(a) => a,
        None => {
            proof {
                assert(lines_view(out@) =~= lines_view(o0) + spec_add_bill(b0, lv, i0).output);
            }
            return ;
        },
    };
    bills.add(Bill::new(name, amount));
    proof {
        assert(lines_view(out@) =~= lines_view(o0) + spec_add_bill(b0, lv, i0).output);
    }
}

/// The view action: prints the listing, one line per record.
#[verifier::loop_isolation(false)]
pub fn view_bills(bills: &Bills, out: &mut Vec<String>)
    ensures
        lines_view(final(out)@) == lines_view(old(out)@) + listing(bills@),
{
    let ghost o0 = out@;
    let all = bills.get_all();
    let n = all.len();
    let mut j: usize = 0;
    proof {
        assert(lines_view(out@) =~= lines_view(o0) + listing(bills@).take(0));
    }
    while j < n
        invariant
            j <= n,
            n == all@.len(),
            bill_views(all@) == bills@,
            lines_view(out@) == lines_view(o0) + listing(bills@).take(j as int),
        decreases n - j,
    {
        let l = all[j].line();
        let ghost op = out@;
        let ghost lva = l@;
        out.push(l);
        proof {
            assert(bill_views(all@)[j as int] == all@[j as int]@);
            assert(listing(bills@)[j as int] == bill_line(bills@[j as int]));
            assert(lines_view(out@) =~= lines_view(op) + seq![lva]);
            assert(lines_view(out@) =~= lines_view(o0) + listing(bills@).take(j + 1));
        }
        j = j + 1;
    }
    proof {
        assert(listing(bills@).take(n as int) =~= listing(bills@));
    }
}

/// The remove action: prints the listing, prompts for a name (an empty line
/// abandons), deletes it and reports success or failure.
pub fn remove_bill(bills: &mut Bills, lines: &Vec<String>, i: &mut usize, out: &mut Vec<String>)
    requires
        old(bills).wf(),
        *old(i) <= lines@.len(),
    ensures
        final(bills).wf(),
        *final(i) == spec_remove_bill(old(bills)@, lines_view(lines@), *old(i) as int).cursor,
        final(bills)@ == spec_remove_bill(old(bills)@, lines_view(lines@), *old(i) as int).bills,
        lines_view(final(out)@) == lines_view(old(out)@) + spec_remove_bill(
            old(bills)@,
            lines_view(lines@),
            *old(i) as int,
        ).output,
{
    let ghost lv = lines_view(lines@);
    let ghost i0 = *i as int;
    let ghost o0 = out@;
    let ghost b0 = bills@;
    view_bills(bills, out);
    let ghost o1 = out@;
    out.push(String::from_str("Enter name"));
    proof {
        assert(lines_view(out@) =~= lines_view(o1) + seq![enter_name_line()]);
        assert(lines_view(out@) =~= lines_view(o0) + listing(b0) + seq![enter_name_line()]);
    }
    let name = match get_input(lines, i) {
        Some(n) => n,
        None => {
            proof {
                assert(lines_view(out@) =~= lines_view(o0) + spec_remove_bill(b0, lv, i0).output);
            }
            return ;
        },
    };
    let ghost o2 = out@;
    if bills.remove(name.as_str()) {
        out.push(String::from_str("Success"));
        proof {
            assert(lines_view(out@) =~= lines_view(o2) + seq![success_line()]);
        }
    } else {
        out.push(String::from_str("Fail"));
        proof {
            assert(lines_view(out@) =~= lines_view(o2) + seq![fail_line()]);
        }
    }
    proof {
        assert(lines_view(out@) =~= lines_view(o0) + spec_remove_bill(b0, lv, i0).output);
    }
}

/// The update action: prints the listing, prompts for a name and an amount
/// (an empty line at either abandons), sets the amount and reports success
/// or failure.
pub fn update_bill(bills: &mut Bills, lines: &Vec<String>, i: &mut usize, out: &mut Vec<String>)
    requires
        old(bills).wf(),
        *old(i) <= lines@.len(),
    ensures
        final(bills).wf(),
        *final(i) == spec_update_bill(old(bills)@, lines_view(lines@), *old(i) as int).cursor,
        final(bills)@ == spec_update_bill(old(bills)@, lines_view(lines@), *old(i) as int).bills,
        lines_view(final(out)@) == lines_view(old(out)@) + spec_update_bill(
            old(bills)@,
            lines_view(lines@),
            *old(i) as int,
        ).output,
{
    let ghost lv = lines_view(lines@);
    let ghost i0 = *i as int;
    let ghost o0 = out@;
    let ghost b0 = bills@;
    view_bills(bills, out);
    let ghost o1 = out@;
    out.push(String::from_str("Enter name"));
    proof {
        assert(lines_view(out@) =~= lines_view(o1) + seq![enter_name_line()]);
        assert(lines_view(out@) =~= lines_view(o0) + listing(b0) + seq![enter_name_line()]);
    }
    let name = match get_input(lines, i) {
        Some(n) => n,
        None => {
            proof {
                assert(lines_view(out@) =~= lines_view(o0) + spec_update_bill(b0, lv, i0).output);
            }
            return ;
        },
    };
    let ghost o2 = out@;
    let ghost j1 = *i as int;
    let amount = match get_bill_amount(lines, i, out) {
        Some(a) => a,
        None => {
            proof {
                assert(lines_view(out@) =~= lines_view(o2) + seq![amount_prompt()] + amount_steps(
                    lv,
                    j1,
                ).output);
                assert(lines_view(out@) =~= lines_view(o0) + spec_update_bill(b0, lv, i0).output);
            }
            return ;
        },
    };
    proof {
        assert(lines_view(out@) =~= lines_view(o2) + seq![amount_prompt()] + amount_steps(
            lv,
            j1,
        ).output);
    }
    let ghost o3 = out@;
    if bills.update(name.as_str(), amount) {
        out.push(String::from_str("Success"));
        proof {
            assert(lines_view(out@) =~= lines_view(o3) + seq![success_line()]);
        }
    } else {
        out.push(String::from_str("Fail"));
        proof {
            assert(lines_view(out@) =~= lines_view(o3) + seq![fail_line()]);
        }
    }
    proof {
        assert(lines_view(out@) =~= lines_view(o0) + spec_update_bill(b0, lv, i0).output);
    }
}

/// The whole session: starts with an empty store and runs the menu cycle
/// over the given lines, returning everything the program prints.
#[verifier::loop_isolation(false)]
pub fn run_program(lines: &Vec<String>) -> (out: Vec<String>)
    ensures
        lines_view(out@) == spec_session(Seq::<BillView>::empty(), lines_view(lines@), 0),
{
    let ghost lv = lines_view(lines@);
    let mut bills = Bills::new();
    let mut out: Vec<String> = Vec::new();
    let mut i: usize = 0;
    proof {
        assert(lines_view(out@) =~= Seq::<Seq<char>>::empty());
    }
    loop
        invariant
            i <= lines@.len(),
            bills.wf(),
            lines_view(out@) + spec_session(bills@, lv, i as int) == spec_session(
                Seq::<BillView>::empty(),
                lv,
                0,
            ),
        decreases lines@.len() - i,
    {
        let ghost ipre = i as int;
        let ghost bpre = bills@;
        let ghost opre = out@;
        MainMenu::show(&mut out);
        match get_input(lines, &mut i) {
            None => {
                proof {
                    assert(spec_session(bpre, lv, ipre) == menu_lines());
                    assert(lines_view(out@) =~= lines_view(opre) + menu_lines());
                    assert(lines_view(out@) =~= spec_session(Seq::<BillView>::empty(), lv, 0));
                }
                return out;
            },
            Some(tok) => {
                match MainMenu::from_str(tok.as_str()) {
                    Some(MainMenu::AddBill) => {
                        add_bill(&mut bills, lines, &mut i, &mut out);
                        proof {
                            let st = spec_add_bill(bpre, lv, ipre + 1);
                            lemma_add_cursor(bpre, lv, ipre + 1);
                            assert(spec_session(bpre, lv, ipre) == menu_lines() + st.output
                                + spec_session(st.bills, lv, st.cursor));
                            assert(lines_view(out@) + spec_session(bills@, lv, i as int)
                                =~= lines_view(opre) + spec_session(bpre, lv, ipre));
                        }
                    },
                    Some(MainMenu::ViewBill) => {
                        view_bills(&bills, &mut out);
                        proof {
                            assert(spec_session(bpre, lv, ipre) == menu_lines() + listing(bpre)
                                + spec_session(bpre, lv, ipre + 1));
                            assert(lines_view(out@) + spec_session(bills@, lv, i as int)
                                =~= lines_view(opre) + spec_session(bpre, lv, ipre));
                        }
                    },
                    Some(MainMenu::RemoveBill) => {
                        remove_bill(&mut bills, lines, &mut i, &mut out);
                        proof {
                            let st = spec_remove_bill(bpre, lv, ipre + 1);
                            lemma_remove_cursor_inline(bpre, lv, ipre + 1);
                            assert(spec_session(bpre, lv, ipre) == menu_lines() + st.output
                                + spec_session(st.bills, lv, st.cursor));
                            assert(lines_view(out@) + spec_session(bills@, lv, i as int)
                                =~= lines_view(opre) + spec_session(bpre, lv, ipre));
                        }
                    },
                    Some(MainMenu::UpdateBill) => {
                        update_bill(&mut bills, lines, &mut i, &mut out);
                        proof {
                            let st = spec_update_bill(bpre, lv, ipre + 1);
                            lemma_update_cursor(bpre, lv, ipre + 1);
                            assert(spec_session(bpre, lv, ipre) == menu_lines() + st.output
                                + spec_session(st.bills, lv, st.cursor));
                            assert(lines_view(out@) + spec_session(bills@, lv, i as int)
                                =~= lines_view(opre) + spec_session(bpre, lv, ipre));
                        }
                    },
                    None => {
                        proof {
                            assert(spec_session(bpre, lv, ipre) == menu_lines());
                            assert(lines_view(out@) =~= lines_view(opre) + menu_lines());
                            assert(lines_view(out@) =~= spec_session(
                                Seq::<BillView>::empty(),
                                lv,
                                0,
                            ));
                        }
                        return out;
                    },
                }
            },
        }
    }
}

/// Abandonment law: an empty line (or exhausted input) at the name prompt
/// ends the action with the store exactly as it was, whatever it held.
pub proof fn lemma_abandon_leaves_store(bills: Seq<BillView>, lines: Seq<Seq<char>>, i: int)
    requires
        read_result(lines, i) is None,
    ensures
        spec_add_bill(bills, lines, i).bills == bills,
        spec_remove_bill(bills, lines, i).bills == bills,
        spec_update_bill(bills, lines, i).bills == bills,
{
}

/// Exit law: at the menu, an unrecognized token, an empty line and an
/// exhausted input all end the session with exactly the same output —
/// nothing beyond the menu just rendered.
pub proof fn lemma_unknown_token_exits_like_blank(
    bills: Seq<BillView>,
    lines: Seq<Seq<char>>,
    i: int,
)
    requires
        0 <= i <= lines.len(),
        match read_result(lines, i) {
            Some(tok) => tok != "1"@ && tok != "2"@ && tok != "3"@ && tok != "4"@,
            None => true,
        },
    ensures
        spec_session(bills, lines, i) == menu_lines(),
{
}

/// Abandonment law at the amount prompt: when the amount reader ends
/// without an accepted amount, add and update leave the store exactly as it
/// was, whatever it held.
pub proof fn lemma_abandon_amount_leaves_store(bills: Seq<BillView>, lines: Seq<Seq<char>>, i: int)
    requires
        amount_steps(lines, next_cursor(lines, i)).result is None,
    ensures
        spec_add_bill(bills, lines, i).bills == bills,
        spec_update_bill(bills, lines, i).bills == bills,
{
}

} // verus!
