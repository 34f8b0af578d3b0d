use osrs_markov::equip::{ensure_pickaxe_equipped, ensure_weapon_swap, net};
use osrs_markov::error::EngineError;
use osrs_markov::gear::{
    AllGearSets, CombatStats, GearBonuses, GearDefensive, GearOffensive, GearSetData, GearStats,
    InventoryItem, Player, SelectedItem,
};

fn item(name: &str, slot: &str, category: &str, all: i32) -> SelectedItem {
    SelectedItem {
        name: name.to_string(),
        id: 1,
        speed: 4,
        two_handed: false,
        slot: slot.to_string(),
        category: category.to_string(),
        weapon_styles: None,
        bonuses: Some(GearBonuses { ranged_str: all, magic_str: all + 1, str: all + 2, prayer: all + 3 }),
        offensive: Some(GearOffensive {
            stab: all,
            slash: all + 1,
            crush: all + 2,
            magic: all + 3,
            ranged: all + 4,
        }),
        defensive: Some(GearDefensive {
            stab: all,
            slash: all + 1,
            crush: all + 2,
            magic: all + 3,
            ranged: all + 4,
        }),
    }
}

fn stats(all: i32) -> GearStats {
    GearStats {
        bonuses: GearBonuses { ranged_str: all, magic_str: all, str: all, prayer: all },
        offensive: GearOffensive { stab: all, slash: all, crush: all, magic: all, ranged: all },
        defensive: GearDefensive { stab: all, slash: all, crush: all, magic: all, ranged: all },
    }
}

fn gear_set(weapon: Option<SelectedItem>, worn: Vec<Option<SelectedItem>>, all: i32) -> GearSetData {
    GearSetData {
        gear_stats: stats(all),
        selected_weapon: weapon,
        gear_type: "melee".to_string(),
        gear_items: worn,
    }
}

fn bonuses(s: &GearStats) -> [i32; 4] {
    [s.bonuses.ranged_str, s.bonuses.magic_str, s.bonuses.str, s.bonuses.prayer]
}

fn offensive(s: &GearStats) -> [i32; 5] {
    [s.offensive.stab, s.offensive.slash, s.offensive.crush, s.offensive.magic, s.offensive.ranged]
}

fn defensive(s: &GearStats) -> [i32; 5] {
    [s.defensive.stab, s.defensive.slash, s.defensive.crush, s.defensive.magic, s.defensive.ranged]
}

#[test]
fn net_checks_the_range() {
    assert_eq!(net(10, 3, 5), Some(12));
    assert_eq!(net(i32::MAX, 0, 1), None);
    assert_eq!(net(i32::MIN, 1, 0), None);
    assert_eq!(net(i32::MAX, i32::MAX, i32::MAX), Some(i32::MAX));
    assert_eq!(net(i32::MIN, i32::MIN, i32::MIN), Some(i32::MIN));
}

#[test]
fn pickaxe_takes_the_place_of_the_weapon() {
    let mut set = gear_set(Some(item("Abyssal whip", "weapon", "Whip", 10)), Vec::new(), 100);
    let inventory = vec![
        item("Shark", "none", "Food", 0),
        item("Dragon pickaxe", "weapon", "Pickaxe", 20),
        item("Rune pickaxe", "weapon", "Pickaxe", 5),
    ];
    assert_eq!(ensure_pickaxe_equipped(&mut set, inventory), Ok(()));
    assert_eq!(set.selected_weapon.as_ref().unwrap().name, "Dragon pickaxe");
    assert_eq!(bonuses(&set.gear_stats), [110, 110, 110, 110]);
    assert_eq!(offensive(&set.gear_stats), [110, 110, 110, 110, 110]);
    assert_eq!(defensive(&set.gear_stats), [110, 110, 110, 110, 110]);
}

#[test]
fn a_wielded_pickaxe_stays() {
    let mut set = gear_set(Some(item("Rune pickaxe", "weapon", "Pickaxe", 5)), Vec::new(), 100);
    let inventory = vec![item("Dragon pickaxe", "weapon", "Pickaxe", 20)];
    assert_eq!(ensure_pickaxe_equipped(&mut set, inventory), Ok(()));
    assert_eq!(set.selected_weapon.as_ref().unwrap().name, "Rune pickaxe");
    assert_eq!(bonuses(&set.gear_stats), [100, 100, 100, 100]);
}

#[test]
fn without_a_pickaxe_the_weapon_stays_but_counts_no_more() {
    let mut set = gear_set(Some(item("Abyssal whip", "weapon", "Whip", 10)), Vec::new(), 100);
    assert_eq!(ensure_pickaxe_equipped(&mut set, vec![item("Shark", "none", "Food", 0)]), Ok(()));
    assert_eq!(set.selected_weapon.as_ref().unwrap().name, "Abyssal whip");
    assert_eq!(bonuses(&set.gear_stats), [90, 89, 88, 87]);
    assert_eq!(offensive(&set.gear_stats), [90, 89, 88, 87, 86]);
}

#[test]
fn items_with_a_group_missing_count_for_nothing() {
    let mut whip = item("Abyssal whip", "weapon", "Whip", 10);
    whip.defensive = None;
    let mut pickaxe = item("Dragon pickaxe", "weapon", "Pickaxe", 20);
    pickaxe.bonuses = None;
    let mut set = gear_set(Some(whip), Vec::new(), 100);
    assert_eq!(ensure_pickaxe_equipped(&mut set, vec![pickaxe]), Ok(()));
    assert_eq!(set.selected_weapon.as_ref().unwrap().name, "Dragon pickaxe");
    assert_eq!(bonuses(&set.gear_stats), [100, 100, 100, 100]);
    assert_eq!(defensive(&set.gear_stats), [100, 100, 100, 100, 100]);
}

#[test]
fn a_bonus_out_of_range_changes_nothing() {
    let mut set = gear_set(Some(item("Abyssal whip", "weapon", "Whip", 10)), Vec::new(), i32::MAX);
    let inventory = vec![item("Dragon pickaxe", "weapon", "Pickaxe", 20)];
    assert_eq!(ensure_pickaxe_equipped(&mut set, inventory), Err(EngineError::StatOverflow));
    assert_eq!(set.selected_weapon.as_ref().unwrap().name, "Abyssal whip");
    assert_eq!(bonuses(&set.gear_stats), [i32::MAX; 4]);
}

fn player(weapon: Option<SelectedItem>, worn: Vec<Option<SelectedItem>>, inventory: Vec<InventoryItem>) -> Player {
    Player {
        combat_stats: CombatStats {
            attack: 99,
            strength: 99,
            defense: 99,
            ranged: 99,
            magic: 99,
            hitpoints: 99,
            prayer: 99,
            woodcutting: 80,
            mining: 85,
            thieving: 50,
        },
        gear_sets: AllGearSets {
            melee: gear_set(weapon, worn, 100),
            mage: gear_set(None, Vec::new(), 7),
            ranged: gear_set(None, Vec::new(), 8),
        },
        inventory,
    }
}

fn stowed(i: SelectedItem) -> InventoryItem {
    InventoryItem { name: i.name.clone(), equipment: Some(i) }
}

#[test]
fn maul_replaces_whip_and_shield() {
    let mut p = player(
        Some(item("Abyssal whip", "weapon", "Whip", 10)),
        vec![
            Some(item("Torva full helm", "head", "Armour", 3)),
            None,
            Some(item("Dragon defender", "shield", "Defender", 4)),
        ],
        vec![
            InventoryItem { name: "Shark".to_string(), equipment: None },
            stowed(item("Elder maul", "2h", "Maul", 30)),
        ],
    );
    let out = ensure_weapon_swap(&mut p, "Elder maul", None).unwrap().unwrap();
    assert_eq!(out.0, "Abyssal whip");
    assert_eq!(out.1.as_ref().unwrap().name, "Dragon defender");
    let melee = &p.gear_sets.melee;
    assert_eq!(melee.selected_weapon.as_ref().unwrap().name, "Elder maul");
    // whip out, maul in, defender out
    assert_eq!(bonuses(&melee.gear_stats), [116, 115, 114, 113]);
    assert_eq!(offensive(&melee.gear_stats), [116, 115, 114, 113, 112]);
    assert_eq!(defensive(&melee.gear_stats), [100; 5]);
    assert_eq!(melee.gear_items.len(), 2);
    assert_eq!(melee.gear_items[0].as_ref().unwrap().name, "Torva full helm");
    assert!(melee.gear_items[1].is_none());
    let names: Vec<&str> = p.inventory.iter().map(|i| i.name.as_str()).collect();
    assert_eq!(names, vec!["Shark", "Abyssal whip", "Dragon defender"]);
    assert_eq!(p.inventory[2].equipment.as_ref().unwrap().slot, "shield");
    assert_eq!(bonuses(&p.gear_sets.mage.gear_stats), [7; 4]);

    // and back again, with the defender put on
    let back = ensure_weapon_swap(&mut p, &out.0, out.1).unwrap().unwrap();
    assert_eq!(back.0, "Elder maul");
    assert!(back.1.is_none());
    let melee = &p.gear_sets.melee;
    assert_eq!(melee.selected_weapon.as_ref().unwrap().name, "Abyssal whip");
    assert_eq!(bonuses(&melee.gear_stats), [100, 100, 100, 100]);
    assert_eq!(offensive(&melee.gear_stats), [100; 5]);
    assert_eq!(melee.gear_items.len(), 3);
    assert_eq!(melee.gear_items[2].as_ref().unwrap().name, "Dragon defender");
    let names: Vec<&str> = p.inventory.iter().map(|i| i.name.as_str()).collect();
    assert_eq!(names, vec!["Shark", "Dragon defender", "Elder maul"]);
}

#[test]
fn the_name_may_be_a_part() {
    let mut p = player(
        Some(item("Abyssal whip", "weapon", "Whip", 10)),
        Vec::new(),
        vec![stowed(item("Zamorak godsword (or)", "2h", "Godsword", 1))],
    );
    let out = ensure_weapon_swap(&mut p, "godsword", None).unwrap().unwrap();
    assert_eq!(out.0, "Abyssal whip");
    assert!(out.1.is_none());
    assert_eq!(p.gear_sets.melee.selected_weapon.as_ref().unwrap().name, "Zamorak godsword (or)");
}

#[test]
fn nothing_to_swap_changes_nothing() {
    let mut p = player(
        Some(item("Abyssal whip", "weapon", "Whip", 10)),
        vec![Some(item("Dragon defender", "shield", "Defender", 4))],
        vec![stowed(item("Elder maul", "2h", "Maul", 30))],
    );
    assert!(ensure_weapon_swap(&mut p, "Scythe", None).unwrap().is_none());
    assert_eq!(p.inventory.len(), 1);
    assert_eq!(p.gear_sets.melee.gear_items.len(), 1);
    assert_eq!(bonuses(&p.gear_sets.melee.gear_stats), [100; 4]);
    let mut unarmed = player(None, Vec::new(), vec![stowed(item("Elder maul", "2h", "Maul", 30))]);
    assert!(ensure_weapon_swap(&mut unarmed, "Elder maul", None).unwrap().is_none());
    assert_eq!(unarmed.inventory.len(), 1);
}

#[test]
fn an_item_that_cannot_be_wielded_is_lost_with_the_shield() {
    let mut p = player(
        Some(item("Abyssal whip", "weapon", "Whip", 10)),
        vec![Some(item("Dragon defender", "shield", "Defender", 4))],
        vec![InventoryItem { name: "Elder maul (broken)".to_string(), equipment: None }],
    );
    assert!(ensure_weapon_swap(&mut p, "Elder maul", None).unwrap().is_none());
    assert!(p.inventory.is_empty());
    assert!(p.gear_sets.melee.gear_items.is_empty());
    assert_eq!(p.gear_sets.melee.selected_weapon.as_ref().unwrap().name, "Abyssal whip");
    assert_eq!(bonuses(&p.gear_sets.melee.gear_stats), [100; 4]);
}

#[test]
fn a_swap_out_of_range_changes_nothing() {
    let mut p = player(
        Some(item("Abyssal whip", "weapon", "Whip", 10)),
        Vec::new(),
        vec![stowed(item("Elder maul", "2h", "Maul", 30))],
    );
    p.gear_sets.melee.gear_stats = stats(i32::MAX - 5);
    assert_eq!(
        ensure_weapon_swap(&mut p, "Elder maul", None).err(),
        Some(EngineError::StatOverflow)
    );
    assert_eq!(p.inventory.len(), 1);
    assert_eq!(p.gear_sets.melee.selected_weapon.as_ref().unwrap().name, "Abyssal whip");
    assert_eq!(bonuses(&p.gear_sets.melee.gear_stats), [i32::MAX - 5; 4]);
}

#[test]
fn copies_are_equal_in_every_field() {
    let mut whip = item("Abyssal whip", "weapon", "Whip", 10);
    whip.weapon_styles = Some(vec![osrs_markov::gear::WeaponStyle {
        name: "Flick".to_string(),
        attack_type: "Slash".to_string(),
        combat_style: "Accurate".to_string(),
        att: 3,
        str_: 0,
        def: 0,
        ranged: 0,
        magic: 0,
        att_spd_reduction: 0,
    }]);
    let copy = whip.duplicate();
    assert_eq!(format!("{:?}", copy), format!("{:?}", whip));
}
