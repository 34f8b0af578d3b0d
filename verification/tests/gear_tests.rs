use osrs_markov::gear::{GearBonuses, GearDefensive, GearOffensive, SelectedItem};

fn whip() -> SelectedItem {
    SelectedItem {
        name: "Abyssal whip".to_string(),
        id: 4151,
        speed: 4,
        two_handed: false,
        slot: "weapon".to_string(),
        category: "Whip".to_string(),
        weapon_styles: None,
        bonuses: Some(GearBonuses { ranged_str: 1, magic_str: 2, str: 82, prayer: 3 }),
        offensive: Some(GearOffensive { stab: 4, slash: 82, crush: 5, magic: 6, ranged: 7 }),
        defensive: Some(GearDefensive { stab: 8, slash: 9, crush: 10, magic: 11, ranged: 12 }),
    }
}

#[test]
fn bonuses_are_found_by_name() {
    let w = whip();
    assert_eq!(w.get_stat("bonuses", "str"), 82);
    assert_eq!(w.get_stat("bonuses", "ranged_str"), 1);
    assert_eq!(w.get_stat("bonuses", "magic_str"), 2);
    assert_eq!(w.get_stat("bonuses", "prayer"), 3);
    assert_eq!(w.get_stat("offensive", "stab"), 4);
    assert_eq!(w.get_stat("offensive", "slash"), 82);
    assert_eq!(w.get_stat("offensive", "crush"), 5);
    assert_eq!(w.get_stat("offensive", "magic"), 6);
    assert_eq!(w.get_stat("offensive", "ranged"), 7);
}

#[test]
fn unknown_names_give_zero() {
    let w = whip();
    assert_eq!(w.get_stat("bonuses", "slash"), 0);
    assert_eq!(w.get_stat("offensive", "str"), 0);
    assert_eq!(w.get_stat("defensive", "stab"), 0);
    assert_eq!(w.get_stat("", ""), 0);
    assert_eq!(w.get_stat("Bonuses", "str"), 0);
}

#[test]
fn missing_groups_give_zero() {
    let mut w = whip();
    w.bonuses = None;
    w.offensive = None;
    assert_eq!(w.get_stat("bonuses", "str"), 0);
    assert_eq!(w.get_stat("offensive", "slash"), 0);
}
