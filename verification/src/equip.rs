//! Changing what a gear set wields, with the sums of its bonuses kept in step.

use vstd::prelude::*;
use crate::error::EngineError;
use crate::gear::{
    GearBonuses, GearOffensive, GearDefensive, GearStats, GearSetData, SelectedItem,
    InventoryItem, Player, str_eq, str_contains, is_substring,
};

verus! {

/// Whether a number fits a bonus.
pub open spec fn in_i32(x: int) -> bool {
    i32::MIN <= x <= i32::MAX
}

/// `base - minus + plus`, where that is a bonus.
pub fn net(base: i32, minus: i32, plus: i32) -> (sum: Option<i32>)
    ensures
        sum == if in_i32(base - minus + plus) {
            Some((base - minus + plus) as i32)
        } else {
            None::<i32>
        },
{
    let wide: i64 = base as i64 - minus as i64 + plus as i64;
    if wide < i32::MIN as i64 || wide > i32::MAX as i64 {
        None
    } else {
        Some(wide as i32)
    }
}

/// The bonuses of an item that has none.
pub open spec fn no_bonuses() -> GearBonuses {
    GearBonuses { ranged_str: 0, magic_str: 0, str: 0, prayer: 0 }
}

/// The attack bonuses of an item that has none.
pub open spec fn no_offensive() -> GearOffensive {
    GearOffensive { stab: 0, slash: 0, crush: 0, magic: 0, ranged: 0 }
}

/// The defence bonuses of an item that has none.
pub open spec fn no_defensive() -> GearDefensive {
    GearDefensive { stab: 0, slash: 0, crush: 0, magic: 0, ranged: 0 }
}

/// The bonuses `base - minus + plus`, field by field, where each of them fits.
pub open spec fn shifted_bonuses(base: GearBonuses, minus: GearBonuses, plus: GearBonuses) -> Option<
    GearBonuses,
> {
    if in_i32(base.ranged_str - minus.ranged_str + plus.ranged_str) && in_i32(
        base.magic_str - minus.magic_str + plus.magic_str,
    ) && in_i32(base.str - minus.str + plus.str) && in_i32(base.prayer - minus.prayer + plus.prayer) {
        Some(
            GearBonuses {
                ranged_str: (base.ranged_str - minus.ranged_str + plus.ranged_str) as i32,
                magic_str: (base.magic_str - minus.magic_str + plus.magic_str) as i32,
                str: (base.str - minus.str + plus.str) as i32,
                prayer: (base.prayer - minus.prayer + plus.prayer) as i32,
            },
        )
    } else {
        None
    }
}

/// The attack bonuses `base - minus + plus`, field by field, where each of them fits.
pub open spec fn shifted_offensive(base: GearOffensive, minus: GearOffensive, plus: GearOffensive) -> Option<
    GearOffensive,
> {
    if in_i32(base.stab - minus.stab + plus.stab) && in_i32(base.slash - minus.slash + plus.slash)
        && in_i32(base.crush - minus.crush + plus.crush) && in_i32(
        base.magic - minus.magic + plus.magic,
    ) && in_i32(base.ranged - minus.ranged + plus.ranged) {
        Some(
            GearOffensive {
                stab: (base.stab - minus.stab + plus.stab) as i32,
                slash: (base.slash - minus.slash + plus.slash) as i32,
                crush: (base.crush - minus.crush + plus.crush) as i32,
                magic: (base.magic - minus.magic + plus.magic) as i32,
                ranged: (base.ranged - minus.ranged + plus.ranged) as i32,
            },
        )
    } else {
        None
    }
}

/// The defence bonuses `base - minus + plus`, field by field, where each of them fits.
pub open spec fn shifted_defensive(base: GearDefensive, minus: GearDefensive, plus: GearDefensive) -> Option<
    GearDefensive,
> {
    if in_i32(base.stab - minus.stab + plus.stab) && in_i32(base.slash - minus.slash + plus.slash)
        && in_i32(base.crush - minus.crush + plus.crush) && in_i32(
        base.magic - minus.magic + plus.magic,
    ) && in_i32(base.ranged - minus.ranged + plus.ranged) {
        Some(
            GearDefensive {
                stab: (base.stab - minus.stab + plus.stab) as i32,
                slash: (base.slash - minus.slash + plus.slash) as i32,
                crush: (base.crush - minus.crush + plus.crush) as i32,
                magic: (base.magic - minus.magic + plus.magic) as i32,
                ranged: (base.ranged - minus.ranged + plus.ranged) as i32,
            },
        )
    } else {
        None
    }
}

/// The sums `base - minus + plus` over all three groups, where every bonus fits.
pub open spec fn shifted_stats(base: GearStats, minus: GearStats, plus: GearStats) -> Option<
    GearStats,
> {
    match (
        shifted_bonuses(base.bonuses, minus.bonuses, plus.bonuses),
        shifted_offensive(base.offensive, minus.offensive, plus.offensive),
        shifted_defensive(base.defensive, minus.defensive, plus.defensive),
    ) {
        (Some(bonuses), Some(offensive), Some(defensive)) => Some(
            GearStats { bonuses, offensive, defensive },
        ),
        _ => None,
    }
}

/// Takes the bonuses `minus` out of `base` and puts `plus` in.
pub fn shift_bonuses(base: GearBonuses, minus: GearBonuses, plus: GearBonuses) -> (out: Option<
    GearBonuses,
>)
    ensures
        out == shifted_bonuses(base, minus, plus),
{
    match (
        net(base.ranged_str, minus.ranged_str, plus.ranged_str),
        net(base.magic_str, minus.magic_str, plus.magic_str),
        net(base.str, minus.str, plus.str),
        net(base.prayer, minus.prayer, plus.prayer),
    ) {
        (Some(ranged_str), Some(magic_str), Some(str), Some(prayer)) => Some(
            GearBonuses { ranged_str, magic_str, str, prayer },
        ),
        _ => None,
    }
}

/// Takes the attack bonuses `minus` out of `base` and puts `plus` in.
pub fn shift_offensive(base: GearOffensive, minus: GearOffensive, plus: GearOffensive) -> (out:
    Option<GearOffensive>)
    ensures
        out == shifted_offensive(base, minus, plus),
{
    match (
        net(base.stab, minus.stab, plus.stab),
        net(base.slash, minus.slash, plus.slash),
        net(base.crush, minus.crush, plus.crush),
        net(base.magic, minus.magic, plus.magic),
        net(base.ranged, minus.ranged, plus.ranged),
    ) {
        (Some(stab), Some(slash), Some(crush), Some(magic), Some(ranged)) => Some(
            GearOffensive { stab, slash, crush, magic, ranged },
        ),
        _ => None,
    }
}

/// Takes the defence bonuses `minus` out of `base` and puts `plus` in.
pub fn shift_defensive(base: GearDefensive, minus: GearDefensive, plus: GearDefensive) -> (out:
    Option<GearDefensive>)
    ensures
        out == shifted_defensive(base, minus, plus),
{
    match (
        net(base.stab, minus.stab, plus.stab),
        net(base.slash, minus.slash, plus.slash),
        net(base.crush, minus.crush, plus.crush),
        net(base.magic, minus.magic, plus.magic),
        net(base.ranged, minus.ranged, plus.ranged),
    ) {
        (Some(stab), Some(slash), Some(crush), Some(magic), Some(ranged)) => Some(
            GearDefensive { stab, slash, crush, magic, ranged },
        ),
        _ => None,
    }
}

/// Takes the sums `minus` out of `base` and puts `plus` in.
pub fn shift_stats(base: GearStats, minus: GearStats, plus: GearStats) -> (out: Option<GearStats>)
    ensures
        out == shifted_stats(base, minus, plus),
{
    match (
        shift_bonuses(base.bonuses, minus.bonuses, plus.bonuses),
        shift_offensive(base.offensive, minus.offensive, plus.offensive),
        shift_defensive(base.defensive, minus.defensive, plus.defensive),
    ) {
        (Some(bonuses), Some(offensive), Some(defensive)) => Some(
            GearStats { bonuses, offensive, defensive },
        ),
        _ => None,
    }
}

/// The sums of an item that counts for nothing.
pub open spec fn no_stats() -> GearStats {
    GearStats { bonuses: no_bonuses(), offensive: no_offensive(), defensive: no_defensive() }
}

/// What an item counts for in the sums of a gear set: its three groups of bonuses
/// where it has all three, and nothing else.
pub open spec fn counted_stats(item: Option<SelectedItem>) -> GearStats {
    match item {
        Some(i) => match (i.bonuses, i.offensive, i.defensive) {
            (Some(bonuses), Some(offensive), Some(defensive)) => GearStats {
                bonuses,
                offensive,
                defensive,
            },
            _ => no_stats(),
        },
        None => no_stats(),
    }
}

/// What an item counts for in the sums of a gear set.
fn stats_counted(item: &Option<SelectedItem>) -> (stats: GearStats)
    ensures
        stats == counted_stats(*item),
{
    let nothing: GearStats = GearStats {
        bonuses: GearBonuses { ranged_str: 0, magic_str: 0, str: 0, prayer: 0 },
        offensive: GearOffensive { stab: 0, slash: 0, crush: 0, magic: 0, ranged: 0 },
        defensive: GearDefensive { stab: 0, slash: 0, crush: 0, magic: 0, ranged: 0 },
    };
    match item {
        Some(i) => match (i.bonuses, i.offensive, i.defensive) {
            (Some(bonuses), Some(offensive), Some(defensive)) => GearStats {
                bonuses,
                offensive,
                defensive,
            },
            _ => nothing,
        },
        None => nothing,
    }
}

/// Whether an item is a pickaxe.
pub open spec fn is_pickaxe(item: SelectedItem) -> bool {
    item.category@ == "Pickaxe"@
}

/// Whether a gear set wields a pickaxe.
pub open spec fn wields_pickaxe(gear_set: GearSetData) -> bool {
    gear_set.selected_weapon matches Some(w) && is_pickaxe(w)
}

/// The place of the first pickaxe among `items` from `from` on, or nothing where
/// there is none.
pub open spec fn first_pickaxe(items: Seq<SelectedItem>, from: int) -> Option<int>
    decreases items.len() - from,
{
    if from < 0 || from >= items.len() {
        None
    } else if is_pickaxe(items[from]) {
        Some(from)
    } else {
        first_pickaxe(items, from + 1)
    }
}

/// The place of the first pickaxe among `items`.
fn find_pickaxe(items: &Vec<SelectedItem>) -> (found: Option<usize>)
    ensures
        match found {
            Some(i) => first_pickaxe(items@, 0) == Some(i as int) && i < items@.len(),
            None => first_pickaxe(items@, 0).is_none(),
        },
{
    let mut i: usize = 0;
    while i < items.len()
        invariant
            i <= items@.len(),
            first_pickaxe(items@, 0) == first_pickaxe(items@, i as int),
        decreases items@.len() - i,
    {
        if str_eq(items[i].category.as_str(), "Pickaxe") {
            return Some(i);
        }
        i = i + 1;
    }
    None
}

/// The gear set as it is once a pickaxe is seen to: a set that wields one is left
/// alone; otherwise what its weapon counted for leaves the sums, and the first pickaxe
/// of the inventory takes the weapon's place and adds what it counts for. Nothing where
/// a sum would leave the range of its type.
pub open spec fn with_pickaxe(gear_set: GearSetData, inventory: Seq<SelectedItem>) -> Option<
    GearSetData,
> {
    if wields_pickaxe(gear_set) {
        Some(gear_set)
    } else {
        let pickaxe = match first_pickaxe(inventory, 0) {
            Some(i) => Some(inventory[i]),
            None => None,
        };
        match shifted_stats(
            gear_set.gear_stats,
            counted_stats(gear_set.selected_weapon),
            counted_stats(pickaxe),
        ) {
            Some(stats) => Some(
                GearSetData {
                    gear_stats: stats,
                    selected_weapon: if pickaxe.is_some() {
                        pickaxe
                    } else {
                        gear_set.selected_weapon
                    },
                    ..gear_set
                },
            ),
            None => None,
        }
    }
}

/// Makes sure that the gear set wields a pickaxe, where the inventory has one. Where a
/// sum of bonuses would leave the range of its type, nothing is changed.
pub fn ensure_pickaxe_equipped(gear_set: &mut GearSetData, inventory: Vec<SelectedItem>) -> (result:
    Result<(), EngineError>)
    ensures
        with_pickaxe(*old(gear_set), inventory@) matches Some(set) ==> result.is_ok() && *final(gear_set) == set,
        with_pickaxe(*old(gear_set), inventory@).is_none() ==> result == Err::<(), EngineError>(
            EngineError::StatOverflow,
        ) && *final(gear_set) == *old(gear_set),
{
    let wields: bool = match &gear_set.selected_weapon {
        Some(w) => str_eq(w.category.as_str(), "Pickaxe"),
        None => false,
    };
    if wields {
        return Ok(());
    }
    let mut inventory = inventory;
    let found: Option<usize> = find_pickaxe(&inventory);
    let leaving: GearStats = stats_counted(&gear_set.selected_weapon);
    let pickaxe: Option<SelectedItem> = match found {
        Some(i) => Some(inventory.swap_remove(i)),
        None => None,
    };
    let coming: GearStats = stats_counted(&pickaxe);
    match shift_stats(gear_set.gear_stats, leaving, coming) {
        Some(stats) => {
            gear_set.gear_stats = stats;
            if pickaxe.is_some() {
                gear_set.selected_weapon = pickaxe;
            }
            Ok(())
        },
        None => Err(EngineError::StatOverflow),
    }
}

/// The place of the first inventory item from `from` on whose name holds `weapon_name`.
pub open spec fn first_named(inventory: Seq<InventoryItem>, weapon_name: Seq<char>, from: int) -> Option<
    int,
>
    decreases inventory.len() - from,
{
    if from < 0 || from >= inventory.len() {
        None
    } else if is_substring(inventory[from].name@, weapon_name) {
        Some(from)
    } else {
        first_named(inventory, weapon_name, from + 1)
    }
}

/// Whether a gear slot holds a shield.
pub open spec fn is_shield(worn: Option<SelectedItem>) -> bool {
    worn matches Some(item) && item.slot@ == "shield"@
}

/// The place of the first shield among the worn items from `from` on.
pub open spec fn first_shield(worn: Seq<Option<SelectedItem>>, from: int) -> Option<int>
    decreases worn.len() - from,
{
    if from < 0 || from >= worn.len() {
        None
    } else if is_shield(worn[from]) {
        Some(from)
    } else {
        first_shield(worn, from + 1)
    }
}

/// The place of the first inventory item whose name holds `weapon_name`.
fn find_named(inventory: &Vec<InventoryItem>, weapon_name: &str) -> (found: Option<usize>)
    ensures
        match found {
            Some(i) => first_named(inventory@, weapon_name@, 0) == Some(i as int) && i
                < inventory@.len(),
            None => first_named(inventory@, weapon_name@, 0).is_none(),
        },
{
    let mut i: usize = 0;
    while i < inventory.len()
        invariant
            i <= inventory@.len(),
            first_named(inventory@, weapon_name@, 0) == first_named(
                inventory@,
                weapon_name@,
                i as int,
            ),
        decreases inventory@.len() - i,
    {
        if str_contains(inventory[i].name.as_str(), weapon_name) {
            return Some(i);
        }
        i = i + 1;
    }
    None
}

/// The place of the first shield among the worn items.
fn find_shield(worn: &Vec<Option<SelectedItem>>) -> (found: Option<usize>)
    ensures
        match found {
            Some(i) => first_shield(worn@, 0) == Some(i as int) && i < worn@.len() && is_shield(
                worn@[i as int],
            ),
            None => first_shield(worn@, 0).is_none(),
        },
{
    let mut i: usize = 0;
    while i < worn.len()
        invariant
            i <= worn@.len(),
            first_shield(worn@, 0) == first_shield(worn@, i as int),
        decreases worn@.len() - i,
    {
        let shield: bool = match &worn[i] {
            Some(item) => str_eq(item.slot.as_str(), "shield"),
            None => false,
        };
        if shield {
            return Some(i);
        }
        i = i + 1;
    }
    None
}

/// The bonuses of an item, and none where there is no item or it has none.
pub open spec fn bonuses_of(item: Option<SelectedItem>) -> GearBonuses {
    match item {
        Some(i) => match i.bonuses {
            Some(b) => b,
            None => no_bonuses(),
        },
        None => no_bonuses(),
    }
}

/// The attack bonuses of an item, and none where there is no item or it has none.
pub open spec fn offensive_of(item: Option<SelectedItem>) -> GearOffensive {
    match item {
        Some(i) => match i.offensive {
            Some(o) => o,
            None => no_offensive(),
        },
        None => no_offensive(),
    }
}

/// The bonuses of an item.
fn item_bonuses(item: &Option<SelectedItem>) -> (bonuses: GearBonuses)
    ensures
        bonuses == bonuses_of(*item),
{
    let nothing: GearBonuses = GearBonuses { ranged_str: 0, magic_str: 0, str: 0, prayer: 0 };
    match item {
        Some(i) => match i.bonuses {
            Some(b) => b,
            None => nothing,
        },
        None => nothing,
    }
}

/// The attack bonuses of an item.
fn item_offensive(item: &Option<SelectedItem>) -> (offensive: GearOffensive)
    ensures
        offensive == offensive_of(*item),
{
    let nothing: GearOffensive = GearOffensive { stab: 0, slash: 0, crush: 0, magic: 0, ranged: 0 };
    match item {
        Some(i) => match i.offensive {
            Some(o) => o,
            None => nothing,
        },
        None => nothing,
    }
}

/// The bonuses of a gear set after a swap of weapon and off-hand: where both weapons
/// state their bonuses, the old weapon's leave and the new one's come, and then those
/// of the old off-hand leave and those of the new one come. Nothing where a bonus would
/// leave the range of its type on the way.
pub open spec fn swapped_bonuses(
    base: GearBonuses,
    old_weapon: Option<SelectedItem>,
    new_weapon: Option<SelectedItem>,
    old_offhand: Option<SelectedItem>,
    new_offhand: Option<SelectedItem>,
) -> Option<GearBonuses> {
    if (old_weapon matches Some(w) && w.bonuses.is_some()) && (new_weapon matches Some(n)
        && n.bonuses.is_some()) {
        match shifted_bonuses(base, bonuses_of(old_weapon), bonuses_of(new_weapon)) {
            Some(weapons) => shifted_bonuses(
                weapons,
                bonuses_of(old_offhand),
                bonuses_of(new_offhand),
            ),
            None => None,
        }
    } else {
        Some(base)
    }
}

/// The attack bonuses of a gear set after a swap of weapon and off-hand, by the same
/// rule as its bonuses.
pub open spec fn swapped_offensive(
    base: GearOffensive,
    old_weapon: Option<SelectedItem>,
    new_weapon: Option<SelectedItem>,
    old_offhand: Option<SelectedItem>,
    new_offhand: Option<SelectedItem>,
) -> Option<GearOffensive> {
    if (old_weapon matches Some(w) && w.offensive.is_some()) && (new_weapon matches Some(n)
        && n.offensive.is_some()) {
        match shifted_offensive(base, offensive_of(old_weapon), offensive_of(new_weapon)) {
            Some(weapons) => shifted_offensive(
                weapons,
                offensive_of(old_offhand),
                offensive_of(new_offhand),
            ),
            None => None,
        }
    } else {
        Some(base)
    }
}

/// The bonuses of a gear set after a swap of weapon and off-hand.
fn swap_bonuses(
    base: GearBonuses,
    old_weapon: &Option<SelectedItem>,
    new_weapon: &Option<SelectedItem>,
    old_offhand: &Option<SelectedItem>,
    new_offhand: &Option<SelectedItem>,
) -> (out: Option<GearBonuses>)
    ensures
        out == swapped_bonuses(base, *old_weapon, *new_weapon, *old_offhand, *new_offhand),
{
    let old_states: bool = match old_weapon {
        Some(w) => w.bonuses.is_some(),
        None => false,
    };
    let new_states: bool = match new_weapon {
        Some(n) => n.bonuses.is_some(),
        None => false,
    };
    if old_states && new_states {
        match shift_bonuses(base, item_bonuses(old_weapon), item_bonuses(new_weapon)) {
            Some(weapons) => shift_bonuses(
                weapons,
                item_bonuses(old_offhand),
                item_bonuses(new_offhand),
            ),
            None => None,
        }
    } else {
        Some(base)
    }
}

/// The attack bonuses of a gear set after a swap of weapon and off-hand.
fn swap_offensive(
    base: GearOffensive,
    old_weapon: &Option<SelectedItem>,
    new_weapon: &Option<SelectedItem>,
    old_offhand: &Option<SelectedItem>,
    new_offhand: &Option<SelectedItem>,
) -> (out: Option<GearOffensive>)
    ensures
        out == swapped_offensive(base, *old_weapon, *new_weapon, *old_offhand, *new_offhand),
{
    let old_states: bool = match old_weapon {
        Some(w) => w.offensive.is_some(),
        None => false,
    };
    let new_states: bool = match new_weapon {
        Some(n) => n.offensive.is_some(),
        None => false,
    };
    if old_states && new_states {
        match shift_offensive(base, item_offensive(old_weapon), item_offensive(new_weapon)) {
            Some(weapons) => shift_offensive(
                weapons,
                item_offensive(old_offhand),
                item_offensive(new_offhand),
            ),
            None => None,
        }
    } else {
        Some(base)
    }
}

/// What a swap works on: the place of the weapon in the inventory, the place of the
/// shield among the worn items, and the sums after the swap.
pub struct SwapPlan {
    pub weapon_at: int,
    pub shield_at: Option<int>,
    pub bonuses: GearBonuses,
    pub offensive: GearOffensive,
}

/// Why a swap does not take place.
pub enum SwapRefusal {
    /// No weapon is wielded, or the inventory has none of the name: nothing changes.
    NothingToSwap,
    /// A bonus would leave the range of its type: nothing changes.
    Overflow,
}

/// The plan of the swap that brings the inventory weapon named `weapon_name` into the
/// melee gear set, or why there is none.
pub open spec fn swap_plan(player: Player, weapon_name: Seq<char>, equip_offhand: Option<SelectedItem>) -> Result<
    SwapPlan,
    SwapRefusal,
> {
    let melee = player.gear_sets.melee;
    if melee.selected_weapon.is_none() {
        Err(SwapRefusal::NothingToSwap)
    } else {
        match first_named(player.inventory@, weapon_name, 0) {
            None => Err(SwapRefusal::NothingToSwap),
            Some(weapon_at) => {
                let shield_at = first_shield(melee.gear_items@, 0);
                let old_offhand = match shield_at {
                    Some(i) => melee.gear_items@[i],
                    None => None,
                };
                let new_weapon = player.inventory@[weapon_at].equipment;
                match (
                    swapped_bonuses(
                        melee.gear_stats.bonuses,
                        melee.selected_weapon,
                        new_weapon,
                        old_offhand,
                        equip_offhand,
                    ),
                    swapped_offensive(
                        melee.gear_stats.offensive,
                        melee.selected_weapon,
                        new_weapon,
                        old_offhand,
                        equip_offhand,
                    ),
                ) {
                    (Some(bonuses), Some(offensive)) => Ok(
                        SwapPlan { weapon_at, shield_at, bonuses, offensive },
                    ),
                    _ => Err(SwapRefusal::Overflow),
                }
            },
        }
    }
}

/// The worn items once the old off-hand is taken off.
pub open spec fn without_shield(worn: Seq<Option<SelectedItem>>, shield_at: Option<int>) -> Seq<
    Option<SelectedItem>,
> {
    match shield_at {
        Some(i) => worn.remove(i),
        None => worn,
    }
}

/// Swaps the wielded melee weapon for the first inventory item whose name holds
/// `weapon_name`, and takes the shield off.
///
/// The item leaves the inventory and the first shield leaves the worn items. The sums
/// of bonuses and attack bonuses follow the swap. The item's equipment becomes the
/// weapon and the old weapon goes to the inventory; a shield that was taken off follows
/// it there, and only where none was taken off is `equip_offhand` put on. Returns the old
/// weapon's name and the shield that was taken off; nothing where no weapon was wielded,
/// no item has the name, or the item cannot be wielded. Where a bonus would leave the
/// range of its type, nothing is changed.
pub fn ensure_weapon_swap(
    player: &mut Player,
    weapon_name: &str,
    equip_offhand: Option<SelectedItem>,
) -> (result: Result<Option<(String, Option<SelectedItem>)>, EngineError>)
    ensures
        swap_plan(*old(player), weapon_name@, equip_offhand) == Err::<SwapPlan, SwapRefusal>(
            SwapRefusal::NothingToSwap,
        ) ==> (result matches Ok(None)) && *final(player) == *old(player),
        swap_plan(*old(player), weapon_name@, equip_offhand) == Err::<SwapPlan, SwapRefusal>(
            SwapRefusal::Overflow,
        ) ==> result == Err::<Option<(String, Option<SelectedItem>)>, EngineError>(
            EngineError::StatOverflow,
        ) && *final(player) == *old(player),
        swap_plan(*old(player), weapon_name@, equip_offhand) matches Ok(plan) ==> {
            let before = old(player).gear_sets.melee;
            let after = final(player).gear_sets.melee;
            let item = old(player).inventory@[plan.weapon_at];
            let old_offhand = match plan.shield_at {
                Some(i) => before.gear_items@[i],
                None => None,
            };
            let taken = old(player).inventory@.remove(plan.weapon_at);
            &&& result.is_ok()
            &&& final(player).combat_stats == old(player).combat_stats
            &&& final(player).gear_sets.mage == old(player).gear_sets.mage
            &&& final(player).gear_sets.ranged == old(player).gear_sets.ranged
            &&& after.gear_type == before.gear_type
            &&& after.gear_stats.bonuses == plan.bonuses
            &&& after.gear_stats.offensive == plan.offensive
            &&& after.gear_stats.defensive == before.gear_stats.defensive
            &&& item.equipment.is_none() ==> {
                &&& (result matches Ok(None))
                &&& after.selected_weapon == before.selected_weapon
                &&& final(player).inventory@ == taken
                &&& after.gear_items@ == without_shield(before.gear_items@, plan.shield_at)
            }
            &&& item.equipment.is_some() ==> {
                let previous = before.selected_weapon.unwrap();
                let stored = taken.push(
                    InventoryItem { name: previous.name, equipment: Some(previous) },
                );
                &&& (result matches Ok(Some(pair)) && pair.0 == previous.name && pair.1
                    == old_offhand)
                &&& after.selected_weapon == item.equipment
                &&& match old_offhand {
                    Some(shield) => {
                        &&& final(player).inventory@.len() == stored.len() + 1
                        &&& final(player).inventory@.take(stored.len() as int) == stored
                        &&& final(player).inventory@.last().name == shield.name
                        &&& (final(player).inventory@.last().equipment matches Some(copy)
                            && copy@ == shield@)
                        &&& after.gear_items@ == without_shield(before.gear_items@, plan.shield_at)
                    },
                    None => {
                        &&& final(player).inventory@ == stored
                        &&& after.gear_items@ == match equip_offhand {
                            Some(offhand) => before.gear_items@.push(Some(offhand)),
                            None => before.gear_items@,
                        }
                    },
                }
            }
        },
{
    if player.gear_sets.melee.selected_weapon.is_none() {
        return Ok(None);
    }
    let weapon_at: usize = match find_named(&player.inventory, weapon_name) {
        Some(i) => i,
        None => {
            return Ok(None);
        },
    };
    let shield_at: Option<usize> = find_shield(&player.gear_sets.melee.gear_items);
    let no_item: Option<SelectedItem> = None;
    let old_offhand_ref: &Option<SelectedItem> = match shield_at {
        Some(i) => &player.gear_sets.melee.gear_items[i],
        None => &no_item,
    };
    let bonuses: Option<GearBonuses> = swap_bonuses(
        player.gear_sets.melee.gear_stats.bonuses,
        &player.gear_sets.melee.selected_weapon,
        &player.inventory[weapon_at].equipment,
        old_offhand_ref,
        &equip_offhand,
    );
    let offensive: Option<GearOffensive> = swap_offensive(
        player.gear_sets.melee.gear_stats.offensive,
        &player.gear_sets.melee.selected_weapon,
        &player.inventory[weapon_at].equipment,
        old_offhand_ref,
        &equip_offhand,
    );
    let (bonuses, offensive) = match (bonuses, offensive) {
        (Some(b), Some(o)) => (b, o),
        _ => {
            return Err(EngineError::StatOverflow);
        },
    };
    let item: InventoryItem = player.inventory.remove(weapon_at);
    let old_offhand: Option<SelectedItem> = match shield_at {
        Some(i) => player.gear_sets.melee.gear_items.remove(i),
        None => None,
    };
    player.gear_sets.melee.gear_stats.bonuses = bonuses;
    player.gear_sets.melee.gear_stats.offensive = offensive;
    let new_weapon: SelectedItem = match item.equipment {
        Some(w) => w,
        None => {
            return Ok(None);
        },
    };
    let previous: SelectedItem = match player.gear_sets.melee.selected_weapon.take() {
        Some(w) => w,
        None => {
            proof {
                assert(false);
            }
            return Ok(None);
        },
    };
    player.gear_sets.melee.selected_weapon = Some(new_weapon);
    let previous_name: String = previous.name.clone();
    player.inventory.push(InventoryItem { name: previous.name.clone(), equipment: Some(previous) });
    match old_offhand {
        Some(shield) => {
            let ghost stored = player.inventory@;
            player.inventory.push(
                InventoryItem { name: shield.name.clone(), equipment: Some(shield.duplicate()) },
            );
            proof {
                assert(player.inventory@.take(stored.len() as int) =~= stored);
            }
            Ok(Some((previous_name, Some(shield))))
        },
        None => {
            match equip_offhand {
                Some(offhand) => {
                    player.gear_sets.melee.gear_items.push(Some(offhand));
                },
                None => {},
            }
            Ok(Some((previous_name, None)))
        },
    }
}

} // verus!
