use morsify::{Achievement, AchievementLevel, Learning, MorseCharacterSet, PracticeItem};

#[test]
fn a_quiz_has_one_item() {
    let learning = Learning::new();
    let items = learning.start_quiz_challenge(vec![MorseCharacterSet::Latin], 5);
    assert_eq!(
        items,
        vec![PracticeItem {
            morse_code: "01".to_string(),
            character: 'A',
            wpm_target: 20,
            success_count: 0,
            last_tested: 0,
        }]
    );
    assert_eq!(learning.start_quiz_challenge(vec![], 0), items);
}

#[test]
fn achievement_levels_are_ordered() {
    assert!(AchievementLevel::Bronze < AchievementLevel::Silver);
    assert!(AchievementLevel::Silver < AchievementLevel::Gold);
    let achievement = Achievement {
        id: "KOCH_MASTER".to_string(),
        name: "Koch master".to_string(),
        description: "All characters at full speed".to_string(),
        unlocked_level: AchievementLevel::Gold,
        unlocked_at_ms: 1,
    };
    assert_eq!(achievement.clone(), achievement);
}
