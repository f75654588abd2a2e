use mine_sweeper::panel::{
    new_blank_panel, new_boarder_panel, new_bomb_panel, FlagState, OpenResult, OpenState, Panel,
};

#[test]
fn fresh_panels_start_covered_and_unflagged() {
    let b = new_bomb_panel();
    assert_eq!(b.open_state, OpenState::Close);
    assert_eq!(b.flag_state, FlagState::NoFlag);
    let p = new_blank_panel();
    assert_eq!(p.open_state, OpenState::Close);
    assert_eq!(p.flag_state, FlagState::NoFlag);
    assert_eq!(p.bomb_value, 0);
    let _ = new_boarder_panel();
}

#[test]
fn opening_a_blank_panel_is_safe() {
    let mut p = Panel::Blank(new_blank_panel());
    let r = p.open();
    assert_eq!(r, OpenResult::Safe);
    assert_eq!(p.get_open_state(), OpenState::Open);
}

#[test]
fn opening_a_bomb_panel_detonates() {
    let mut p = Panel::Bomb(new_bomb_panel());
    let r = p.open();
    assert_eq!(r, OpenResult::Bomb);
    assert_eq!(p.get_open_state(), OpenState::Open);
}

#[test]
fn a_flag_blocks_the_open() {
    let mut p = Panel::Bomb(new_bomb_panel());
    p.flag();
    assert_eq!(p.get_flag_state(), FlagState::Flag);
    let r = p.open();
    assert_eq!(r, OpenResult::Safe);
    assert_eq!(p.get_open_state(), OpenState::Close);
}

#[test]
fn border_panels_are_inert() {
    let mut p = Panel::Boarder(new_boarder_panel());
    p.flag();
    assert_eq!(p.get_flag_state(), FlagState::NoFlag);
    let r = p.open();
    assert_eq!(r, OpenResult::Safe);
    assert_eq!(p.get_open_state(), OpenState::Open);
    assert_eq!(p.to_str(), '=');
}

#[test]
fn symbols_follow_the_precedence_rules() {
    let mut blank = Panel::Blank(new_blank_panel());
    assert_eq!(blank.to_str(), '#');
    blank.set_bomb_value(3);
    assert_eq!(blank.get_bomb_value(), Some(3));
    blank.open();
    assert_eq!(blank.to_str(), '3');
    blank.flag();
    assert_eq!(blank.to_str(), 'F');

    let mut zero = Panel::Blank(new_blank_panel());
    zero.open();
    assert_eq!(zero.to_str(), ' ');

    let mut bomb = Panel::Bomb(new_bomb_panel());
    assert_eq!(bomb.to_str(), '#');
    bomb.open();
    assert_eq!(bomb.to_str(), 'B');
    bomb.flag();
    assert_eq!(bomb.to_str(), 'F');
}

#[test]
fn bomb_values_live_only_on_blank_panels() {
    let mut bomb = Panel::Bomb(new_bomb_panel());
    bomb.set_bomb_value(5);
    assert_eq!(bomb.get_bomb_value(), None);
    assert!(bomb.is_bomb());
    assert!(!bomb.is_blank());
    let blank = Panel::Blank(new_blank_panel());
    assert!(!blank.is_bomb());
    assert!(blank.is_blank());
}
