use wmtext::unicode_context::{CarrierKind, CharDecision, RecommendedAction, classify_text};

fn decision_for(text: &str, target: char) -> CharDecision {
    text.chars()
        .zip(classify_text(text))
        .find_map(|(ch, decision)| (ch == target).then_some(decision))
        .expect("target character in fixture")
}

#[test]
fn floating_joiner_is_removable() {
    let decision = decision_for("a\u{200D}b", '\u{200D}');
    assert_eq!(decision.kind, Some(CarrierKind::Joiner));
    assert_eq!(decision.action, RecommendedAction::Remove);
}

#[test]
fn emoji_joiner_is_preserved() {
    let decision = decision_for("👨\u{200D}👩", '\u{200D}');
    assert_eq!(decision.action, RecommendedAction::Keep);
    assert!(decision.contextually_valid);
}

#[test]
fn same_script_joiners_are_preserved() {
    for text in ["می\u{200C}روم", "क्\u{200D}ष"] {
        assert!(classify_text(text).iter().any(|decision| {
            decision.kind == Some(CarrierKind::Joiner) && decision.action == RecommendedAction::Keep
        }));
    }
}

#[test]
fn complete_flag_tags_are_preserved() {
    let text = "🏴\u{E0067}\u{E0062}\u{E0073}\u{E0063}\u{E0074}\u{E007F}";
    assert!(classify_text(text).iter().all(|decision| {
        decision.kind != Some(CarrierKind::Tag) || decision.action == RecommendedAction::Keep
    }));
}

#[test]
fn incomplete_flag_tags_are_removable() {
    let text = "🏴\u{E0067}\u{E0062}";
    assert_eq!(
        classify_text(text)
            .iter()
            .filter(|decision| decision.kind == Some(CarrierKind::Tag))
            .filter(|decision| decision.action == RecommendedAction::Remove)
            .count(),
        2
    );
}

#[test]
fn load_bearing_script_formats_are_preserved() {
    for text in ["ᠠ\u{180B}ᠡ", "ក\u{17B4}ខ", "ᄀ\u{115F}ᅡ"] {
        assert!(classify_text(text).iter().any(|decision| {
            matches!(decision.kind, Some(CarrierKind::VariationSelector | CarrierKind::ScriptFormat))
                && decision.action == RecommendedAction::Keep
        }));
    }
}

#[test]
fn private_use_is_report_only_by_default() {
    let decision = decision_for("a\u{E000}b", '\u{E000}');
    assert_eq!(decision.kind, Some(CarrierKind::PrivateUse));
    assert_eq!(decision.action, RecommendedAction::Keep);
    assert!(!decision.contextually_valid);
}

#[test]
fn classification_has_one_decision_per_character() {
    let text = "a\u{200B}é👩";
    let decisions = classify_text(text);
    assert_eq!(decisions.len(), text.chars().count());
    assert_eq!(decisions[0].kind, None);
    assert_eq!(decisions[0].action, RecommendedAction::Keep);
    assert_eq!(decisions[1].kind, Some(CarrierKind::FormatControl));
    assert_eq!(decisions[1].action, RecommendedAction::Keep);
    assert!(!decisions[1].contextually_valid);
    assert_eq!(decisions[3].kind, None);
}

#[test]
fn kind_labels_are_stable() {
    assert_eq!(CarrierKind::SoftHyphen.label(), "soft_hyphen");
    assert_eq!(CarrierKind::FormatControl.label(), "format_control");
    assert_eq!(CarrierKind::Bidi.label(), "bidi");
    assert_eq!(CarrierKind::Joiner.label(), "joiner");
    assert_eq!(CarrierKind::Tag.label(), "tag_character");
    assert_eq!(CarrierKind::VariationSelector.label(), "variation_selector");
    assert_eq!(CarrierKind::ScriptFormat.label(), "script_format");
    assert_eq!(CarrierKind::PrivateUse.label(), "private_use");
    assert_eq!(CarrierKind::ExoticSpace.label(), "exotic_space");
}

#[test]
fn joiner_kind_does_not_depend_on_context() {
    for text in ["a\u{200D}b", "👨\u{200D}👩", "क्\u{200D}ष"] {
        assert_eq!(decision_for(text, '\u{200D}').kind, Some(CarrierKind::Joiner));
    }
}
