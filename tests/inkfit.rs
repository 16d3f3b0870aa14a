use inkfit::{AccountId, CustomError, Inkfit};

fn alice() -> AccountId {
    AccountId::from_bytes([0x01; 32])
}

fn bob() -> AccountId {
    AccountId::from_bytes([0x02; 32])
}

fn charlie() -> AccountId {
    AccountId::from_bytes([0x03; 32])
}

#[test]
fn default_works() {
    let mut inkfit = Inkfit::default(alice());
    let user_to_add = "pawel".to_string();
    assert_eq!(inkfit.add_user(alice(), user_to_add), Ok(()));
    assert_eq!(inkfit.get_user_activity_score("pawel".to_string()), Ok(0));
    assert_eq!(
        inkfit.add_activity(alice(), "pawel".to_owned(), 23, 4000, "26/03/2023".to_string()),
        Ok(())
    );
    assert_eq!(inkfit.get_user_activity_score("pawel".to_string()), Ok(1));
}

#[test]
fn min_mins_work() {
    let mut inkfit = Inkfit::default(alice());
    let user_to_add = "pawel".to_string();
    assert_eq!(inkfit.add_user(alice(), user_to_add), Ok(()));
    assert_eq!(inkfit.get_user_activity_score("pawel".to_string()), Ok(0));
    assert_eq!(inkfit.set_min_active_mins(alice(), 40), Ok(()));
    assert_eq!(
        inkfit.add_activity(alice(), "pawel".to_owned(), 23, 4000, "26/03/2023".to_string()),
        Err(CustomError::TooLittleMins)
    );
    assert_eq!(
        inkfit.add_activity(alice(), "pawel".to_owned(), 43, 4000, "26/03/2023".to_string()),
        Ok(())
    );
    assert_eq!(inkfit.get_user_activity_score("pawel".to_string()), Ok(1));
}

#[test]
fn min_steps_work() {
    let mut inkfit = Inkfit::default(alice());
    let user_to_add = "pawel".to_string();
    assert_eq!(inkfit.add_user(alice(), user_to_add), Ok(()));
    assert_eq!(inkfit.get_user_activity_score("pawel".to_string()), Ok(0));
    assert_eq!(inkfit.set_min_steps(alice(), 8000), Ok(()));
    assert_eq!(
        inkfit.add_activity(alice(), "pawel".to_owned(), 23, 4000, "26/03/2023".to_string()),
        Err(CustomError::TooLittleSteps)
    );
    assert_eq!(
        inkfit.add_activity(alice(), "pawel".to_owned(), 43, 10000, "26/03/2023".to_string()),
        Ok(())
    );
    assert_eq!(inkfit.get_user_activity_score("pawel".to_string()), Ok(1));
}

#[test]
fn only_extisitng_users_work() {
    let mut inkfit = Inkfit::default(alice());
    let user_to_add = "pawel".to_string();
    assert_eq!(inkfit.add_user(alice(), user_to_add), Ok(()));
    assert_eq!(
        inkfit.add_activity(alice(), "krzysiek".to_owned(), 23, 4000, "26/03/2023".to_string()),
        Err(CustomError::UserDoesNotExist)
    );
    assert_eq!(
        inkfit.get_user_activity_score("krzysiek".to_string()),
        Err(CustomError::UserDoesNotExist)
    );
    assert_eq!(
        inkfit.get_user_activities("krzysiek".to_string()),
        Err(CustomError::UserDoesNotExist)
    );
}

#[test]
fn only_admins_can_add_new_admins() {
    let mut inkfit = Inkfit::default(alice());
    assert_eq!(inkfit.add_admin(bob(), alice()), Err(CustomError::AccessOnlyForAdmins));
}

#[test]
fn non_admins_change_nothing() {
    let mut inkfit = Inkfit::default(alice());
    assert_eq!(inkfit.add_user(alice(), "pawel".to_string()), Ok(()));
    let denied = Err(CustomError::AccessOnlyForAdmins);
    assert_eq!(inkfit.add_user(bob(), "krzysiek".to_string()), denied);
    assert_eq!(inkfit.add_admin(bob(), bob()), denied);
    assert_eq!(inkfit.remove_admin(bob(), alice()), denied);
    assert_eq!(
        inkfit.add_activity(bob(), "pawel".to_string(), 50, 9000, "27/03/2023".to_string()),
        denied
    );
    assert_eq!(inkfit.set_min_active_mins(bob(), 90), denied);
    assert_eq!(inkfit.set_min_steps(bob(), 90000), denied);
    assert_eq!(
        inkfit.get_user_activity_score("krzysiek".to_string()),
        Err(CustomError::UserDoesNotExist)
    );
    assert_eq!(inkfit.get_user_activity_score("pawel".to_string()), Ok(0));
    assert!(inkfit.is_admin(alice()));
    assert!(!inkfit.is_admin(bob()));
    // The thresholds are still zero: the smallest activity is accepted.
    assert_eq!(
        inkfit.add_activity(alice(), "pawel".to_string(), 0, 0, "27/03/2023".to_string()),
        Ok(())
    );
}

#[test]
fn fresh_user_has_nothing() {
    let mut inkfit = Inkfit::default(alice());
    assert_eq!(inkfit.add_user(alice(), "pawel".to_string()), Ok(()));
    assert_eq!(inkfit.get_user_activity_score("pawel".to_string()), Ok(0));
    assert_eq!(inkfit.get_user_activities("pawel".to_string()), Ok(Vec::new()));
}

#[test]
fn activity_raises_score_and_list_together() {
    let mut inkfit = Inkfit::default(alice());
    assert_eq!(inkfit.add_user(alice(), "pawel".to_string()), Ok(()));
    for n in 1..=3u32 {
        assert_eq!(
            inkfit.add_activity(alice(), "pawel".to_string(), 30, 5000, "26/03/2023".to_string()),
            Ok(())
        );
        assert_eq!(inkfit.get_user_activity_score("pawel".to_string()), Ok(n));
        assert_eq!(
            inkfit.get_user_activities("pawel".to_string()).map(|v| v.len()),
            Ok(n as usize)
        );
    }
}

#[test]
fn activity_line_is_written_out() {
    let mut inkfit = Inkfit::default(alice());
    assert_eq!(inkfit.add_user(alice(), "pawel".to_string()), Ok(()));
    assert_eq!(
        inkfit.add_activity(alice(), "pawel".to_string(), 23, 4000, "26/03/2023".to_string()),
        Ok(())
    );
    assert_eq!(
        inkfit.add_activity(alice(), "pawel".to_string(), 0, 4294967295, "27/03/2023".to_string()),
        Ok(())
    );
    assert_eq!(
        inkfit.get_user_activities("pawel".to_string()),
        Ok(vec![
            "pawel active mins: 23 steps made: 4000 from: 26/03/2023".to_string(),
            "pawel active mins: 0 steps made: 4294967295 from: 27/03/2023".to_string(),
        ])
    );
}

#[test]
fn activities_are_matched_by_text() {
    let mut inkfit = Inkfit::default(alice());
    assert_eq!(inkfit.add_user(alice(), "alice".to_string()), Ok(()));
    assert_eq!(inkfit.add_user(alice(), "al".to_string()), Ok(()));
    assert_eq!(inkfit.add_user(alice(), "bob".to_string()), Ok(()));
    assert_eq!(
        inkfit.add_activity(alice(), "alice".to_string(), 10, 100, "01/01/2024".to_string()),
        Ok(())
    );
    assert_eq!(
        inkfit.add_activity(alice(), "bob".to_string(), 20, 200, "02/01/2024".to_string()),
        Ok(())
    );
    assert_eq!(inkfit.get_user_activity_score("al".to_string()), Ok(0));
    assert_eq!(
        inkfit.get_user_activities("al".to_string()),
        Ok(vec!["alice active mins: 10 steps made: 100 from: 01/01/2024".to_string()])
    );
    assert_eq!(
        inkfit.get_user_activities("bob".to_string()),
        Ok(vec!["bob active mins: 20 steps made: 200 from: 02/01/2024".to_string()])
    );
}

#[test]
fn minutes_are_checked_before_steps() {
    let mut inkfit = Inkfit::new(vec![alice()], 40, 8000);
    assert_eq!(inkfit.add_user(alice(), "pawel".to_string()), Ok(()));
    assert_eq!(
        inkfit.add_activity(alice(), "pawel".to_string(), 23, 4000, "26/03/2023".to_string()),
        Err(CustomError::TooLittleMins)
    );
    assert_eq!(
        inkfit.add_activity(alice(), "pawel".to_string(), 40, 7999, "26/03/2023".to_string()),
        Err(CustomError::TooLittleSteps)
    );
    assert_eq!(
        inkfit.add_activity(alice(), "pawel".to_string(), 40, 8000, "26/03/2023".to_string()),
        Ok(())
    );
    assert_eq!(inkfit.get_user_activity_score("pawel".to_string()), Ok(1));
}

#[test]
fn thresholds_come_before_the_user_check() {
    let mut inkfit = Inkfit::new(vec![alice()], 40, 0);
    assert_eq!(
        inkfit.add_activity(alice(), "nobody".to_string(), 23, 4000, "26/03/2023".to_string()),
        Err(CustomError::TooLittleMins)
    );
    assert_eq!(
        inkfit.add_activity(alice(), "nobody".to_string(), 43, 4000, "26/03/2023".to_string()),
        Err(CustomError::UserDoesNotExist)
    );
}

#[test]
fn new_admin_can_act() {
    let mut inkfit = Inkfit::default(alice());
    assert_eq!(inkfit.add_user(bob(), "pawel".to_string()), Err(CustomError::AccessOnlyForAdmins));
    assert_eq!(inkfit.add_admin(alice(), bob()), Ok(()));
    assert!(inkfit.is_admin(bob()));
    assert_eq!(inkfit.add_user(bob(), "pawel".to_string()), Ok(()));
    assert_eq!(inkfit.set_min_steps(bob(), 10), Ok(()));
    assert_eq!(
        inkfit.add_activity(bob(), "pawel".to_string(), 1, 10, "26/03/2023".to_string()),
        Ok(())
    );
    assert_eq!(inkfit.add_admin(bob(), charlie()), Ok(()));
    assert_eq!(inkfit.remove_admin(charlie(), alice()), Ok(()));
    assert!(!inkfit.is_admin(alice()));
    assert_eq!(inkfit.add_user(alice(), "anna".to_string()), Err(CustomError::AccessOnlyForAdmins));
}

#[test]
fn removing_a_non_admin_is_not_found() {
    let mut inkfit = Inkfit::default(alice());
    assert_eq!(inkfit.remove_admin(alice(), bob()), Err(CustomError::AdminNotFound));
    assert!(inkfit.is_admin(alice()));
    assert!(!inkfit.is_admin(bob()));
}

#[test]
fn an_admin_added_twice_is_removed_once() {
    let mut inkfit = Inkfit::default(alice());
    assert_eq!(inkfit.add_admin(alice(), bob()), Ok(()));
    assert_eq!(inkfit.add_admin(alice(), bob()), Ok(()));
    assert_eq!(inkfit.remove_admin(alice(), bob()), Ok(()));
    assert!(!inkfit.is_admin(bob()));
    assert_eq!(inkfit.remove_admin(alice(), bob()), Err(CustomError::AdminNotFound));
}

#[test]
fn last_admin_can_leave() {
    let mut inkfit = Inkfit::default(alice());
    assert_eq!(inkfit.remove_admin(alice(), alice()), Ok(()));
    assert!(!inkfit.is_admin(alice()));
    assert_eq!(inkfit.add_user(alice(), "pawel".to_string()), Err(CustomError::AccessOnlyForAdmins));
}

#[test]
fn new_keeps_each_owner_once() {
    let mut inkfit = Inkfit::new(vec![alice(), bob(), alice()], 0, 0);
    assert!(inkfit.is_admin(alice()));
    assert!(inkfit.is_admin(bob()));
    assert!(!inkfit.is_admin(charlie()));
    assert_eq!(inkfit.remove_admin(bob(), alice()), Ok(()));
    assert!(!inkfit.is_admin(alice()));
}

#[test]
fn new_with_no_owners_admits_nobody() {
    let mut inkfit = Inkfit::new(Vec::new(), 0, 0);
    assert!(!inkfit.is_admin(alice()));
    assert_eq!(inkfit.add_user(alice(), "pawel".to_string()), Err(CustomError::AccessOnlyForAdmins));
}

#[test]
fn registering_again_resets_the_score() {
    let mut inkfit = Inkfit::default(alice());
    assert_eq!(inkfit.add_user(alice(), "pawel".to_string()), Ok(()));
    assert_eq!(
        inkfit.add_activity(alice(), "pawel".to_string(), 23, 4000, "26/03/2023".to_string()),
        Ok(())
    );
    assert_eq!(inkfit.get_user_activity_score("pawel".to_string()), Ok(1));
    assert_eq!(inkfit.add_user(alice(), "pawel".to_string()), Ok(()));
    assert_eq!(inkfit.get_user_activity_score("pawel".to_string()), Ok(0));
    assert_eq!(inkfit.get_user_activities("pawel".to_string()).map(|v| v.len()), Ok(1));
}

#[test]
fn empty_user_name_matches_every_line() {
    let mut inkfit = Inkfit::default(alice());
    assert_eq!(inkfit.add_user(alice(), String::new()), Ok(()));
    assert_eq!(inkfit.add_user(alice(), "pawel".to_string()), Ok(()));
    assert_eq!(
        inkfit.add_activity(alice(), "pawel".to_string(), 5, 6, "26/03/2023".to_string()),
        Ok(())
    );
    assert_eq!(inkfit.get_user_activities(String::new()).map(|v| v.len()), Ok(1));
}
