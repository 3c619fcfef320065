use infra_core::shortcut::{
    classify_witch_room, closure_rule, closure_tier, default_tailor_tier, distribution_for_tier,
    has_blank_third, has_closure, has_witch_e2, is_tailor_alpha_id, is_tailor_beta_id,
    match_witch_group_shortcut, witch_shortcut_id, ShortcutMatchRule, ShortcutTailorTier, SkillMarkTable,
    SkillMarks, WitchRoomKind,
};
use infra_core::trade::{GoldDistributionKind, TradeOperator};

fn mk_op(name: &str, elite: u8, buff_ids: Vec<&str>) -> TradeOperator {
    TradeOperator::new(name, elite, buff_ids.into_iter().map(str::to_string).collect())
}

fn no_marks() -> SkillMarkTable {
    SkillMarkTable { skills: Vec::new() }
}

fn witch_entry_ids() -> Vec<String> {
    [
        "gsl_closure_tier90",
        "gsl_witch_long_docus",
        "gsl_witch_long_beta",
        "gsl_witch_long_alpha",
        "gsl_witch_long_blank",
        "gsl_witch_long0_blank",
        "gsl_witch_beta_blank",
    ]
    .iter()
    .map(|s| s.to_string())
    .collect()
}

fn matched_id(ops: &Vec<TradeOperator>, marks: &SkillMarkTable) -> Option<String> {
    let ids = witch_entry_ids();
    match_witch_group_shortcut(ops, marks, &ids).map(|i| ids[i].clone())
}

#[test]
fn gsl_witch_long_beta_shortcut() {
    let ops = vec![
        mk_op("巫恋", 2, vec!["trade_ord_vodfox[000]", "trade_ord_wt&cost[000]"]),
        mk_op("龙舌兰", 2, vec!["trade_ord_long[010]"]),
        mk_op("卡夫卡", 2, vec!["trade_ord_wt&cost[011]"]),
    ];
    let m = matched_id(&ops, &no_marks()).expect("match");
    assert_eq!(m, "gsl_witch_long_beta");
}

#[test]
fn gsl_witch_long_docus_shortcut() {
    let ops = vec![
        mk_op("巫恋", 2, vec!["trade_ord_vodfox[000]", "trade_ord_wt&cost[000]"]),
        mk_op("龙舌兰", 2, vec!["trade_ord_long[010]"]),
        mk_op("但书", 2, vec!["trade_ord_law[000]", "trade_ord_against[010]"]),
    ];
    let m = matched_id(&ops, &no_marks()).expect("match");
    assert_eq!(m, "gsl_witch_long_docus");
}

#[test]
fn gsl_witch_beta_blank_shortcut() {
    let ops = vec![
        mk_op("巫恋", 2, vec!["trade_ord_vodfox[000]", "trade_ord_wt&cost[000]"]),
        mk_op("卡夫卡", 2, vec!["trade_ord_wt&cost[011]"]),
        mk_op("古米", 0, vec!["trade_ord_spd&cost[000]"]),
    ];
    let m = matched_id(&ops, &no_marks()).expect("match");
    assert_eq!(m, "gsl_witch_beta_blank");
}

#[test]
fn witch_rooms_classified_by_partner() {
    let witch = || mk_op("巫恋", 2, vec!["trade_ord_vodfox[000]"]);
    let alpha = mk_op("A", 2, vec!["trade_ord_wt&cost[002]"]);
    let marks = no_marks();
    assert_eq!(
        classify_witch_room(&vec![witch(), mk_op("龙舌兰", 2, vec![]), alpha], &marks),
        Some(WitchRoomKind::LongE2Alpha)
    );
    assert_eq!(
        classify_witch_room(&vec![witch(), mk_op("龙舌兰", 2, vec![]), mk_op("F", 0, vec![])], &marks),
        Some(WitchRoomKind::LongE2Blank)
    );
    assert_eq!(
        classify_witch_room(&vec![witch(), mk_op("龙舌兰", 1, vec![]), mk_op("F", 0, vec![])], &marks),
        Some(WitchRoomKind::LongE0Blank)
    );
    assert_eq!(classify_witch_room(&vec![witch(), mk_op("F", 0, vec![])], &marks), None);
    let weak_witch = mk_op("巫恋", 1, vec!["trade_ord_vodfox[000]"]);
    assert_eq!(classify_witch_room(&vec![weak_witch, mk_op("龙舌兰", 2, vec![])], &marks), None);
    assert_eq!(witch_shortcut_id(WitchRoomKind::LongE0Blank), "gsl_witch_long0_blank");
}

#[test]
fn skill_marks_stand_in_for_known_ids() {
    let marks = SkillMarkTable {
        skills: vec![
            SkillMarks {
                id: "trade_ord_vodfox[100]".to_string(),
                vodfox: true,
                order_tags: Vec::new(),
                replace_orders: Vec::new(),
            },
            SkillMarks {
                id: "trade_ord_wt&cost[099]".to_string(),
                vodfox: false,
                order_tags: vec!["tailor_beta".to_string()],
                replace_orders: Vec::new(),
            },
            SkillMarks {
                id: "trade_ord_closure[000]".to_string(),
                vodfox: false,
                order_tags: Vec::new(),
                replace_orders: vec!["closure_special".to_string()],
            },
        ],
    };
    let ops = vec![
        mk_op("巫恋", 2, vec!["trade_ord_vodfox[100]"]),
        mk_op("龙舌兰", 2, vec![]),
        mk_op("K", 2, vec!["trade_ord_wt&cost[099]"]),
    ];
    assert!(has_witch_e2(&ops, &marks));
    assert!(!has_witch_e2(&ops, &no_marks()));
    assert_eq!(classify_witch_room(&ops, &marks), Some(WitchRoomKind::LongE2Beta));
    let closure_room = vec![mk_op("可露希尔", 2, vec!["trade_ord_closure[000]"]), mk_op("能天使", 2, vec![])];
    assert!(has_closure(&closure_room, &marks));
    let low = vec![mk_op("可露希尔", 1, vec!["trade_ord_closure[000]"])];
    assert!(!has_closure(&low, &marks));
    assert!(has_blank_third(&closure_room, &marks));
}

#[test]
fn missing_table_entry_gives_no_match() {
    let ops = vec![
        mk_op("巫恋", 2, vec!["trade_ord_vodfox[000]"]),
        mk_op("龙舌兰", 2, vec![]),
        mk_op("F", 0, vec![]),
    ];
    let ids = vec!["gsl_closure_tier90".to_string()];
    assert_eq!(match_witch_group_shortcut(&ops, &no_marks(), &ids), None);
}

#[test]
fn tailor_ids_and_tiers() {
    assert!(is_tailor_beta_id("trade_ord_wt&cost[011]"));
    assert!(!is_tailor_beta_id("trade_ord_wt&cost[000]"));
    assert!(is_tailor_alpha_id("trade_ord_wt&cost[003]"));
    assert!(!is_tailor_alpha_id("trade_ord_wt&cost[010]"));
    assert_eq!(default_tailor_tier(), ShortcutTailorTier::Regular);
    assert_eq!(distribution_for_tier(ShortcutTailorTier::Beta, 3), GoldDistributionKind::BetaPeak);
    assert_eq!(distribution_for_tier(ShortcutTailorTier::Alpha, 3), GoldDistributionKind::AlphaPeak);
    assert_eq!(distribution_for_tier(ShortcutTailorTier::Docus, 3), GoldDistributionKind::Regular);
    assert_eq!(distribution_for_tier(ShortcutTailorTier::Beta, 2), GoldDistributionKind::Regular);
    let rule = Some(ShortcutMatchRule { kind: "closure".to_string(), station_trade_pct: Some(90) });
    assert!(closure_rule(&rule));
    assert_eq!(closure_tier(&rule), 90);
    let other = Some(ShortcutMatchRule { kind: "witch".to_string(), station_trade_pct: None });
    assert!(!closure_rule(&other));
    assert_eq!(closure_tier(&other), 0);
    assert_eq!(closure_tier(&None), 0);
}

fn regression_room(shortcut_id: &str) -> Vec<TradeOperator> {
    let shamare = || mk_op("巫恋", 2, vec!["trade_ord_vodfox[000]", "trade_ord_wt&cost[000]"]);
    let long_e2 = || mk_op("龙舌兰", 2, vec!["trade_ord_long[010]"]);
    let long_e0 = || mk_op("龙舌兰", 0, vec!["trade_ord_long[000]"]);
    let kafka_beta = || mk_op("卡夫卡", 2, vec!["trade_ord_wt&cost[011]"]);
    let docus = || mk_op("但书", 2, vec!["trade_ord_law[000]", "trade_ord_against[010]"]);
    let zheguang_alpha = || mk_op("折光", 0, vec!["trade_ord_wt&cost[002]"]);
    let blank = || mk_op("古米", 0, vec!["trade_ord_spd&cost[000]"]);
    match shortcut_id {
        "gsl_witch_long_beta" => vec![shamare(), long_e2(), kafka_beta()],
        "gsl_witch_long_docus" => vec![shamare(), long_e2(), docus()],
        "gsl_witch_long_alpha" => vec![shamare(), long_e2(), zheguang_alpha()],
        "gsl_witch_long_blank" => vec![shamare(), long_e2(), blank()],
        "gsl_witch_long0_blank" => vec![shamare(), long_e0(), blank()],
        _ => vec![shamare(), kafka_beta(), blank()],
    }
}

#[test]
fn witch_regression_rooms_resolve_to_their_shortcuts() {
    for id in [
        "gsl_witch_long_beta",
        "gsl_witch_long_docus",
        "gsl_witch_long_alpha",
        "gsl_witch_long_blank",
        "gsl_witch_long0_blank",
        "gsl_witch_beta_blank",
    ] {
        let room = regression_room(id);
        assert_eq!(matched_id(&room, &no_marks()).as_deref(), Some(id), "shortcut for {id}");
    }
}
