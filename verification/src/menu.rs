//! The main menu: its four actions, the tokens that select them, and its
//! rendered text.

use vstd::prelude::*;

verus! {

/// One of the four menu actions.
pub enum MainMenu {
    AddBill,
    ViewBill,
    RemoveBill,
    UpdateBill,
}

impl MainMenu {
    /// The action selected by a trimmed input line: exactly the tokens
    /// `"1"` to `"4"` select one; every other line selects none.
    pub fn from_str(input: &str) -> (r: Option<MainMenu>)
        ensures
            r == Some(MainMenu::AddBill) <==> input@ == "1"@,
            r == Some(MainMenu::ViewBill) <==> input@ == "2"@,
            r == Some(MainMenu::RemoveBill) <==> input@ == "3"@,
            r == Some(MainMenu::UpdateBill) <==> input@ == "4"@,
            r is None <==> (input@ != "1"@ && input@ != "2"@ && input@ != "3"@ && input@ != "4"@),
    {
        proof {
            reveal_strlit("1");
            reveal_strlit("2");
            reveal_strlit("3");
            reveal_strlit("4");
        }
        if input.unicode_len() != 1 {
            return None;
        }
        let c = input.get_char(0);
        proof {
            assert(input@ =~= seq![c]);
        }
        if c == '1' {
            proof {
                assert(input@ =~= "1"@);
            }
            Some(MainMenu::AddBill)
        } else if c == '2' {
            proof {
                assert(input@ =~= "2"@);
            }
            Some(MainMenu::ViewBill)
        } else if c == '3' {
            proof {
                assert(input@ =~= "3"@);
            }
            Some(MainMenu::RemoveBill)
        } else if c == '4' {
            proof {
                assert(input@ =~= "4"@);
            }
            Some(MainMenu::UpdateBill)
        } else {
            None
        }
    }

    /// The lines of the rendered menu, ending with the selection prompt.
    pub fn show(out: &mut Vec<String>)
        ensures
            final(out)@.len() == old(out)@.len() + menu_lines().len(),
            lines_view(final(out)@) == lines_view(old(out)@) + menu_lines(),
    {
        let ghost o0 = out@;
        out.push(String::from_str(""));
        out.push(String::from_str("== Bill Manager =="));
        out.push(String::from_str("1. Add Bill"));
        out.push(String::from_str("2. View Bills"));
        out.push(String::from_str("3. Remove Bill"));
        out.push(String::from_str("4. Update Bill"));
        out.push(String::from_str(""));
        out.push(String::from_str("Enter selection: "));
        proof {
            assert(lines_view(out@) =~= lines_view(o0) + menu_lines());
        }
    }
}

/// The views of a sequence of output lines, in order.
pub open spec fn lines_view(s: Seq<String>) -> Seq<Seq<char>> {
    s.map_values(|l: String| l@)
}

/// The text of the rendered menu.
pub open spec fn menu_lines() -> Seq<Seq<char>> {
    seq![
        ""@,
        "== Bill Manager =="@,
        "1. Add Bill"@,
        "2. View Bills"@,
        "3. Remove Bill"@,
        "4. Update Bill"@,
        ""@,
        "Enter selection: "@,
    ]
}

} // verus!
