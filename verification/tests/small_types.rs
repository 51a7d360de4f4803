use game_features::{
    ConditionLostReaction, FactionError, FactionFlags, FactionResult, LevelFor, Leveled, Tiered,
    Unlockable, Unlockables, User, UserGroup, UserGroupSettings, UserRepository,
};

struct EveryHundred;

impl LevelFor for EveryHundred {
    fn level_for_xp(&self, xp: u32) -> u32 {
        xp / 100
    }
}

#[test]
fn the_level_is_what_the_element_makes_of_the_experience() {
    let hero = Leveled { accumulated_xp: 250, element: EveryHundred };
    assert_eq!(hero.level(), 2);
    let rookie = Leveled { accumulated_xp: 99, element: EveryHundred };
    assert_eq!(rookie.level(), 0);
    let tiered = Tiered { tier: 3, element: "sword" };
    assert_eq!((tiered.tier, tiered.element), (3, "sword"));
}

#[test]
fn users_and_groups_hold_what_they_are_given() {
    let user = User::new(4, "jo".to_string(), 1.5f32);
    assert_eq!(user.id, 4);
    assert_eq!(user.name, "jo");
    assert_eq!(user.data, 1.5);
    let all: UserRepository<f32> = vec![user.clone()];
    assert_eq!(all.len(), 1);
    let group = UserGroup { id: 1, users: vec![4] };
    let settings = UserGroupSettings { maximum_users: 8 };
    assert!((group.users.len() as i32) < settings.maximum_users);
    assert_eq!(group.id, 1);
}

#[test]
fn faction_types_hold_what_they_are_given() {
    let flags = FactionFlags {
        claimable: true,
        pvp_enabled: false,
        power_loss_in_territory: true,
        power_gain_in_territory: false,
        permanent: true,
    };
    assert!(flags.claimable && !flags.pvp_enabled && flags.permanent);
    assert!(flags.power_loss_in_territory && !flags.power_gain_in_territory);
    let denied: FactionResult = Err(FactionError::PvpDenied);
    assert!(matches!(denied, Err(FactionError::PvpDenied)));
    assert_eq!(format!("{:?}", FactionError::NotEnoughPower), "NotEnoughPower");
    assert_eq!(format!("{:?}", ConditionLostReaction::Pause.clone()), "Pause");
}

#[test]
fn an_unlockable_hides_its_inner_value_while_it_is_locked() {
    let mut door: Unlockable<u8, &str, (), ()> = Unlockable::new(1, "treasure", false);
    assert!(!door.is_unlocked());
    assert_eq!(door.try_get(), None);
    assert!(door.try_get_mut().is_none());
    assert_eq!(*door.get(), "treasure");
    door.unlock();
    assert!(door.is_unlocked());
    assert_eq!(door.try_get(), Some(&"treasure"));
    *door.try_get_mut().unwrap() = "dust";
    assert_eq!(*door.get(), "dust");
    door.lock();
    assert!(!door.is_unlocked());
    assert_eq!(door.try_get(), None);
    *door.get_mut() = "gold";
    assert_eq!(*door.get(), "gold");
    door.set("silver");
    assert_eq!(*door.get(), "silver");
    assert!(!door.is_unlocked());
    door.lock();
    assert!(!door.is_unlocked());
    door.unlock();
    door.unlock();
    assert!(door.is_unlocked());
    assert!(door.unlock_dependencies.is_empty());
    assert!(door.unlock_stat_conditions.is_empty());
    assert!(door.unlock_item_conditions.is_empty());
}

#[test]
fn unlockables_start_empty() {
    let all = Unlockables::<u8, &str, (), ()>::default();
    assert!(all.unlockables.is_empty());
    let mut map = std::collections::HashMap::new();
    map.insert(1u8, Unlockable::<u8, &str, (), ()>::new(1, "x", true));
    let some = Unlockables::new(map);
    assert!(some.unlockables[&1].is_unlocked());
}
