//! The host's console menu.

use vstd::prelude::*;

verus! {

/// The entries of the console menu, numbered 0 to 4 in this order; any other
/// number is a wrong input.
#[derive(PartialEq, Eq, Structural)]
pub enum UIMenu {
    Exit,
    StartSimulation,
    StopSimulation,
    EnterSimulation,
    ShowGroupInfo,
    WrongInput,
}

/// The entry that the number `v` selects.
pub open spec fn menu_of(v: usize) -> UIMenu {
    if v == 0 {
        UIMenu::Exit
    } else if v == 1 {
        UIMenu::StartSimulation
    } else if v == 2 {
        UIMenu::StopSimulation
    } else if v == 3 {
        UIMenu::EnterSimulation
    } else if v == 4 {
        UIMenu::ShowGroupInfo
    } else {
        UIMenu::WrongInput
    }
}

impl From<usize> for UIMenu {
    fn from(v: usize) -> (menu: UIMenu) {
        match v {
            0 => UIMenu::Exit,
            1 => UIMenu::StartSimulation,
            2 => UIMenu::StopSimulation,
            3 => UIMenu::EnterSimulation,
            4 => UIMenu::ShowGroupInfo,
            _ => UIMenu::WrongInput,
        }
    }
}

impl vstd::std_specs::convert::FromSpecImpl<usize> for UIMenu {
    open spec fn obeys_from_spec() -> bool {
        true
    }

    open spec fn from_spec(v: usize) -> UIMenu {
        menu_of(v)
    }
}

impl UIMenu {
    /// The number of the entry: 0 to 4 for the menu entries, 5 for a wrong
    /// input.
    pub fn number(&self) -> (n: usize)
        ensures
            n <= 5,
            *self == UIMenu::WrongInput <==> n == 5,
            n < 5 ==> menu_of(n) == *self,
    {
        match self {
            UIMenu::Exit => 0,
            UIMenu::StartSimulation => 1,
            UIMenu::StopSimulation => 2,
            UIMenu::EnterSimulation => 3,
            UIMenu::ShowGroupInfo => 4,
            UIMenu::WrongInput => 5,
        }
    }
}

/// Every number selects an entry, every entry but the wrong input is
/// selected by exactly its own number, and every number from 5 on is a wrong
/// input.
pub proof fn lemma_menu_numbers(v: usize, w: usize)
    ensures
        v >= 5 ==> menu_of(v) == UIMenu::WrongInput,
        v < 5 && w < 5 && v != w ==> menu_of(v) != menu_of(w),
        v < 5 ==> menu_of(v) != UIMenu::WrongInput,
{
}

} // verus!
