//! Equipment and monster records, and the lookup of a single bonus on an item.

use vstd::prelude::*;

verus! {

/// Strength and prayer bonuses of a piece of equipment or of a whole gear set.
#[derive(Clone, Copy, Debug)]
pub struct GearBonuses {
    pub ranged_str: i32,
    pub magic_str: i32,
    pub str: i32,
    pub prayer: i32,
}

/// Attack bonuses, one per attack type.
#[derive(Clone, Copy, Debug)]
pub struct GearOffensive {
    pub stab: i32,
    pub slash: i32,
    pub crush: i32,
    pub magic: i32,
    pub ranged: i32,
}

/// Defence bonuses, one per attack type.
#[derive(Clone, Copy, Debug)]
pub struct GearDefensive {
    pub stab: i32,
    pub slash: i32,
    pub crush: i32,
    pub magic: i32,
    pub ranged: i32,
}

/// One way of attacking with a weapon, with the invisible level boosts it grants.
#[derive(Clone, Debug)]
pub struct WeaponStyle {
    pub name: String,
    pub attack_type: String,
    pub combat_style: String,
    pub att: i32,
    pub str_: i32,
    pub def: i32,
    pub ranged: i32,
    pub magic: i32,
    pub att_spd_reduction: i32,
}

/// An item that can be worn or wielded.
#[derive(Clone, Debug)]
pub struct SelectedItem {
    pub name: String,
    pub id: u32,
    pub speed: i32,
    pub two_handed: bool,
    pub slot: String,
    pub category: String,
    pub weapon_styles: Option<Vec<WeaponStyle>>,
    pub bonuses: Option<GearBonuses>,
    pub offensive: Option<GearOffensive>,
    pub defensive: Option<GearDefensive>,
}

/// An inventory slot: a display name and, where the item can be equipped, the item.
#[derive(Clone, Debug)]
pub struct InventoryItem {
    pub name: String,
    pub equipment: Option<SelectedItem>,
}

/// Combat levels of a monster.
#[derive(Clone, Copy, Debug)]
pub struct MonsterSkills {
    pub atk: u32,
    pub def: u32,
    pub hp: u32,
    pub magic: u32,
    pub ranged: u32,
    pub str: u32,
}

/// Offensive bonuses of a monster.
#[derive(Clone, Copy, Debug)]
pub struct MonsterOffensive {
    pub ranged_str: i32,
    pub magic_str: i32,
    pub atk: i32,
    pub magic: i32,
    pub ranged: i32,
    pub str: i32,
}

/// Defensive bonuses of a monster.
#[derive(Clone, Copy, Debug)]
pub struct MonsterDefensive {
    pub flat_armour: i32,
    pub crush: i32,
    pub magic: i32,
    pub heavy: i32,
    pub standard: i32,
    pub light: i32,
    pub slash: i32,
    pub stab: i32,
}

/// The skill levels of a player.
#[derive(Clone, Copy, Debug)]
pub struct CombatStats {
    pub attack: u32,
    pub strength: u32,
    pub defense: u32,
    pub ranged: u32,
    pub magic: u32,
    pub hitpoints: u32,
    pub prayer: u32,
    pub woodcutting: u32,
    pub mining: u32,
    pub thieving: u32,
}

/// The summed bonuses of everything that a gear set wears.
#[derive(Clone, Copy, Debug)]
pub struct GearStats {
    pub bonuses: GearBonuses,
    pub offensive: GearOffensive,
    pub defensive: GearDefensive,
}

/// One of the player's gear sets: what is worn, the weapon among it, and the sums.
#[derive(Clone, Debug)]
pub struct GearSetData {
    pub gear_stats: GearStats,
    pub selected_weapon: Option<SelectedItem>,
    pub gear_type: String,
    pub gear_items: Vec<Option<SelectedItem>>,
}

/// The three gear sets of a player.
#[derive(Clone, Debug)]
pub struct AllGearSets {
    pub melee: GearSetData,
    pub mage: GearSetData,
    pub ranged: GearSetData,
}

/// A player: levels, gear sets and inventory.
#[derive(Clone, Debug)]
pub struct Player {
    pub combat_stats: CombatStats,
    pub gear_sets: AllGearSets,
    pub inventory: Vec<InventoryItem>,
}

/// A monster, as far as the calculations read it.
#[derive(Clone, Debug)]
pub struct Monster {
    pub id: u32,
    pub name: String,
    pub version: Option<String>,
    pub image: Option<String>,
    pub level: Option<u32>,
    pub speed: Option<u32>,
    pub style: Option<Vec<String>>,
    pub size: Option<u32>,
    pub max_hit: Option<u32>,
    pub skills: MonsterSkills,
    pub offensive: MonsterOffensive,
    pub defensive: MonsterDefensive,
    pub attributes: Option<Vec<String>>,
}

/// Whether `needle` stands somewhere in `hay`, character for character.
pub open spec fn is_substring(hay: Seq<char>, needle: Seq<char>) -> bool {
    exists|at: int|
        0 <= at <= hay.len() - needle.len() && #[trigger] hay.subrange(at, at + needle.len())
            == needle
}

/// `str::contains` with a string pattern: true exactly when the pattern matches a
/// part of the slice.
#[verifier::external_body]
pub(crate) fn str_contains(hay: &str, needle: &str) -> (found: bool)
    ensures
        found == is_substring(hay@, needle@),
{
    hay.contains(needle)
}

/// Whether two slices hold the same characters.
pub(crate) fn str_eq(a: &str, b: &str) -> (same: bool)
    ensures
        same == (a@ == b@),
{
    let left: String = a.to_owned();
    let right: String = b.to_owned();
    left == right
}

impl GearBonuses {
    /// The bonus called `stat`, or nothing where no bonus has that name.
    pub open spec fn named(self, stat: Seq<char>) -> Option<int> {
        if stat == "str"@ {
            Some(self.str as int)
        } else if stat == "ranged_str"@ {
            Some(self.ranged_str as int)
        } else if stat == "magic_str"@ {
            Some(self.magic_str as int)
        } else if stat == "prayer"@ {
            Some(self.prayer as int)
        } else {
            None
        }
    }
}

impl GearOffensive {
    /// The attack bonus called `stat`, or nothing where no attack type has that name.
    pub open spec fn named(self, stat: Seq<char>) -> Option<int> {
        if stat == "stab"@ {
            Some(self.stab as int)
        } else if stat == "slash"@ {
            Some(self.slash as int)
        } else if stat == "crush"@ {
            Some(self.crush as int)
        } else if stat == "magic"@ {
            Some(self.magic as int)
        } else if stat == "ranged"@ {
            Some(self.ranged as int)
        } else {
            None
        }
    }
}

/// A weapon style as a value of mathematics.
pub struct StyleView {
    pub name: Seq<char>,
    pub attack_type: Seq<char>,
    pub combat_style: Seq<char>,
    pub att: i32,
    pub str_: i32,
    pub def: i32,
    pub ranged: i32,
    pub magic: i32,
    pub att_spd_reduction: i32,
}

/// An item as a value of mathematics.
pub struct ItemView {
    pub name: Seq<char>,
    pub id: u32,
    pub speed: i32,
    pub two_handed: bool,
    pub slot: Seq<char>,
    pub category: Seq<char>,
    pub weapon_styles: Option<Seq<StyleView>>,
    pub bonuses: Option<GearBonuses>,
    pub offensive: Option<GearOffensive>,
    pub defensive: Option<GearDefensive>,
}

impl View for WeaponStyle {
    type V = StyleView;

    open spec fn view(&self) -> StyleView {
        StyleView {
            name: self.name@,
            attack_type: self.attack_type@,
            combat_style: self.combat_style@,
            att: self.att,
            str_: self.str_,
            def: self.def,
            ranged: self.ranged,
            magic: self.magic,
            att_spd_reduction: self.att_spd_reduction,
        }
    }
}

impl View for SelectedItem {
    type V = ItemView;

    open spec fn view(&self) -> ItemView {
        ItemView {
            name: self.name@,
            id: self.id,
            speed: self.speed,
            two_handed: self.two_handed,
            slot: self.slot@,
            category: self.category@,
            weapon_styles: match self.weapon_styles {
                Some(styles) => Some(Seq::new(styles@.len(), |i: int| styles@[i]@)),
                None => None,
            },
            bonuses: self.bonuses,
            offensive: self.offensive,
            defensive: self.defensive,
        }
    }
}

impl WeaponStyle {
    /// A copy of the style.
    pub fn duplicate(&self) -> (copy: WeaponStyle)
        ensures
            copy@ == self@,
    {
        WeaponStyle {
            name: self.name.clone(),
            attack_type: self.attack_type.clone(),
            combat_style: self.combat_style.clone(),
            att: self.att,
            str_: self.str_,
            def: self.def,
            ranged: self.ranged,
            magic: self.magic,
            att_spd_reduction: self.att_spd_reduction,
        }
    }
}

/// Copies of the styles, in their order.
fn duplicate_styles(styles: &Vec<WeaponStyle>) -> (copy: Vec<WeaponStyle>)
    ensures
        copy@.len() == styles@.len(),
        forall|i: int| 0 <= i < styles@.len() ==> (#[trigger] copy@[i])@ == styles@[i]@,
{
    let mut copy: Vec<WeaponStyle> = Vec::new();
    let mut i: usize = 0;
    while i < styles.len()
        invariant
            i <= styles@.len(),
            copy@.len() == i,
            forall|k: int| 0 <= k < i ==> (#[trigger] copy@[k])@ == styles@[k]@,
        decreases styles@.len() - i,
    {
        copy.push(styles[i].duplicate());
        i = i + 1;
    }
    copy
}

impl SelectedItem {
    /// What `get_stat` answers: the named bonus of the named group, and 0 wherever
    /// the group is unknown, the item lacks it, or the group has no such bonus.
    pub open spec fn stat_of(&self, stat_type: Seq<char>, stat: Seq<char>) -> int {
        if stat_type == "bonuses"@ {
            match self.bonuses {
                Some(b) => match b.named(stat) {
                    Some(v) => v,
                    None => 0,
                },
                None => 0,
            }
        } else if stat_type == "offensive"@ {
            match self.offensive {
                Some(o) => match o.named(stat) {
                    Some(v) => v,
                    None => 0,
                },
                None => 0,
            }
        } else {
            0
        }
    }

    /// A copy of the item.
    pub fn duplicate(&self) -> (copy: SelectedItem)
        ensures
            copy@ == self@,
    {
        let weapon_styles: Option<Vec<WeaponStyle>> = match &self.weapon_styles {
            Some(styles) => Some(duplicate_styles(styles)),
            None => None,
        };
        let copy: SelectedItem = SelectedItem {
            name: self.name.clone(),
            id: self.id,
            speed: self.speed,
            two_handed: self.two_handed,
            slot: self.slot.clone(),
            category: self.category.clone(),
            weapon_styles,
            bonuses: self.bonuses,
            offensive: self.offensive,
            defensive: self.defensive,
        };
        proof {
            if self.weapon_styles.is_some() {
                let a = copy.weapon_styles.unwrap()@;
                let b = self.weapon_styles.unwrap()@;
                assert(Seq::new(a.len(), |i: int| a[i]@) =~= Seq::new(b.len(), |i: int| b[i]@));
            }
        }
        copy
    }

    /// Looks up one bonus of the item by group (`"bonuses"` or `"offensive"`) and name.
    pub fn get_stat(&self, stat_type: &str, stat: &str) -> (value: i32)
        ensures
            value == self.stat_of(stat_type@, stat@),
    {
        if str_eq(stat_type, "bonuses") {
            match &self.bonuses {
                Some(b) => {
                    if str_eq(stat, "str") {
                        b.str
                    } else if str_eq(stat, "ranged_str") {
                        b.ranged_str
                    } else if str_eq(stat, "magic_str") {
                        b.magic_str
                    } else if str_eq(stat, "prayer") {
                        b.prayer
                    } else {
                        0
                    }
                },
                None => 0,
            }
        } else if str_eq(stat_type, "offensive") {
            match &self.offensive {
                Some(o) => {
                    if str_eq(stat, "stab") {
                        o.stab
                    } else if str_eq(stat, "slash") {
                        o.slash
                    } else if str_eq(stat, "crush") {
                        o.crush
                    } else if str_eq(stat, "magic") {
                        o.magic
                    } else if str_eq(stat, "ranged") {
                        o.ranged
                    } else {
                        0
                    }
                },
                None => 0,
            }
        } else {
            0
        }
    }
}

} // verus!
