//! The selectable game modes a search can be narrowed to.

use vstd::prelude::*;

verus! {

/// A game mode the user can pick for the catalog search.
#[derive(Clone, Copy, Debug, PartialEq, Eq, Structural)]
pub enum GameModeOption {
    Osu,
    Taiko,
    Catch,
    Mania,
}

impl GameModeOption {
    /// The mode's display name.
    pub open spec fn spec_name(self) -> Seq<char> {
        match self {
            GameModeOption::Osu => "Osu"@,
            GameModeOption::Taiko => "Taiko"@,
            GameModeOption::Catch => "Catch"@,
            GameModeOption::Mania => "Mania"@,
        }
    }

    /// The mode's display name.
    pub fn name(&self) -> (r: &'static str)
        ensures
            r@ == self.spec_name(),
    {
        match self {
            GameModeOption::Osu => "Osu",
            GameModeOption::Taiko => "Taiko",
            GameModeOption::Catch => "Catch",
            GameModeOption::Mania => "Mania",
        }
    }

    /// Every pickable mode, in menu order.
    pub fn all() -> (r: Vec<GameModeOption>)
        ensures
            r@ == seq![
                GameModeOption::Osu,
                GameModeOption::Taiko,
                GameModeOption::Catch,
                GameModeOption::Mania,
            ],
    {
        let mut r: Vec<GameModeOption> = Vec::new();
        r.push(GameModeOption::Osu);
        r.push(GameModeOption::Taiko);
        r.push(GameModeOption::Catch);
        r.push(GameModeOption::Mania);
        proof {
            assert(r@ =~= seq![
                GameModeOption::Osu,
                GameModeOption::Taiko,
                GameModeOption::Catch,
                GameModeOption::Mania,
            ]);
        }
        r
    }

    /// The mode a numeric menu choice selects; the console menu offers
    /// only choice 1, the mania mode. Any other number is rejected and
    /// the menu asks again.
    pub fn from_choice(choice: u8) -> (r: Option<GameModeOption>)
        ensures
            r == (if choice == 1 {
                Some(GameModeOption::Mania)
            } else {
                Option::<GameModeOption>::None
            }),
    {
        if choice == 1 {
            Some(GameModeOption::Mania)
        } else {
            None
        }
    }
}

} // verus!
