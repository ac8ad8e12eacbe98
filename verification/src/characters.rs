use vstd::prelude::*;

verus! {

/// The symbols the interface draws with.
#[derive(Clone, Debug)]
pub struct Characters {
    pub attacker: String,
    pub arrow_down: String,
    pub arrow_left: String,
    pub arrow_right: String,
    pub arrow_up: String,
    pub captured: String,
    pub dagger: String,
    pub defender: String,
    pub double_arrow_left: String,
    pub double_arrow_left_full: String,
    pub double_arrow_right: String,
    pub double_arrow_right_full: String,
    pub king: String,
    pub people: String,
    pub restricted_square: String,
    pub shield: String,
}

impl Characters {
    /// The symbols are the Unicode ones.
    pub open spec fn is_unicode(self) -> bool {
        &&& self.attacker@ == "♟"@
        &&& self.arrow_down@ == "↓"@
        &&& self.arrow_left@ == "←"@
        &&& self.arrow_right@ == "→"@
        &&& self.arrow_up@ == "↑"@
        &&& self.captured@ == "🗙"@
        &&& self.dagger@ == "🗡"@
        &&& self.defender@ == "♙"@
        &&& self.double_arrow_left@ == "⏪"@
        &&& self.double_arrow_left_full@ == "⏮"@
        &&& self.double_arrow_right@ == "⏩"@
        &&& self.double_arrow_right_full@ == "⏭"@
        &&& self.king@ == "♔"@
        &&& self.people@ == "👥"@
        &&& self.restricted_square@ == "⌘"@
        &&& self.shield@ == "⛨"@
    }

    /// The symbols are the plain ASCII ones.
    pub open spec fn is_ascii_set(self) -> bool {
        &&& self.attacker@ == "A"@
        &&& self.arrow_down@ == "v"@
        &&& self.arrow_left@ == "<"@
        &&& self.arrow_right@ == ">"@
        &&& self.arrow_up@ == "^"@
        &&& self.captured@ == "X"@
        &&& self.dagger@ == "A"@
        &&& self.defender@ == "D"@
        &&& self.double_arrow_left@ == "<"@
        &&& self.double_arrow_left_full@ == "<<"@
        &&& self.double_arrow_right@ == ">"@
        &&& self.double_arrow_right_full@ == ">>"@
        &&& self.king@ == "K"@
        &&& self.people@ == "OO"@
        &&& self.restricted_square@ == "#"@
        &&& self.shield@ == "D"@
    }

    /// The Unicode symbols: chess men, arrows, a dagger, a shield.
    pub fn default() -> (c: Characters)
        ensures
            c.is_unicode(),
    {
        Characters {
            attacker: "♟".to_string(),
            arrow_down: "↓".to_string(),
            arrow_left: "←".to_string(),
            arrow_right: "→".to_string(),
            arrow_up: "↑".to_string(),
            captured: "🗙".to_string(),
            dagger: "🗡".to_string(),
            defender: "♙".to_string(),
            double_arrow_left: "⏪".to_string(),
            double_arrow_left_full: "⏮".to_string(),
            double_arrow_right: "⏩".to_string(),
            double_arrow_right_full: "⏭".to_string(),
            king: "♔".to_string(),
            people: "👥".to_string(),
            restricted_square: "⌘".to_string(),
            shield: "⛨".to_string(),
        }
    }

    /// Switches to plain ASCII symbols, for terminals that lack the others.
    pub fn ascii(&mut self)
        ensures
            final(self).is_ascii_set(),
    {
        self.attacker = "A".to_string();
        self.arrow_down = "v".to_string();
        self.arrow_left = "<".to_string();
        self.arrow_right = ">".to_string();
        self.arrow_up = "^".to_string();
        self.captured = "X".to_string();
        self.dagger = "A".to_string();
        self.defender = "D".to_string();
        self.double_arrow_left = "<".to_string();
        self.double_arrow_left_full = "<<".to_string();
        self.double_arrow_right = ">".to_string();
        self.double_arrow_right_full = ">>".to_string();
        self.king = "K".to_string();
        self.people = "OO".to_string();
        self.restricted_square = "#".to_string();
        self.shield = "D".to_string();
    }
}

} // verus!
