use proarbitrage::decimal::Decimal;
use proarbitrage::model::{
    model_parts, parse_model_document, trim_brackets, ModelError, XGBModel, XGBTree,
};
use proarbitrage::number::Number;

fn d(m: i128, places: u32) -> Decimal {
    Decimal::decimal(m, places)
}

fn document(learner: &str) -> String {
    format!("{{\"version\": [2, 0], \"learner\": {}}}", learner)
}

fn error_of(learner: &str) -> ModelError {
    let v = parse_model_document(&document(learner)).unwrap();
    match model_parts::<Decimal>(&v) {
        Err(e) => e,
        Ok(_) => panic!("a whole model"),
    }
}

#[test]
fn parts_of_a_model() {
    let text = document(
        "{\"learner_model_param\": {\"base_score\": \"[-2.5]\"},
          \"gradient_booster\": {\"model\": {\"trees\": [1, 2, 3]}}}",
    );
    let v = parse_model_document(&text).unwrap();
    let (score, trees) = model_parts::<Decimal>(&v).unwrap();
    assert_eq!(score, d(-25, 1));
    assert_eq!(trees.as_array().unwrap().len(), 3);
}

#[test]
fn what_a_model_can_lack() {
    assert!(matches!(parse_model_document("{"), Err(ModelError::InvalidJson)));
    let v = parse_model_document("{\"other\": 1}").unwrap();
    assert!(matches!(model_parts::<Decimal>(&v), Err(ModelError::NoLearner)));
    assert!(matches!(error_of("{}"), ModelError::NoBaseScore));
    assert!(matches!(
        error_of("{\"learner_model_param\": {\"base_score\": 0.5}}"),
        ModelError::NoBaseScore
    ));
    match error_of("{\"learner_model_param\": {\"base_score\": \"[x]\"}}") {
        ModelError::BadBaseScore(t) => assert_eq!(t, "[x]"),
        _ => panic!("no number"),
    }
    let score = "\"learner_model_param\": {\"base_score\": \"1\"}";
    assert!(matches!(error_of(&format!("{{{}}}", score)), ModelError::NoTrees));
    assert!(matches!(
        error_of(&format!("{{{}, \"gradient_booster\": {{\"model\": {{}}}}}}", score)),
        ModelError::NoTrees
    ));
}

#[test]
fn brackets() {
    assert_eq!(trim_brackets("[-2.4777513E-3]"), "-2.4777513E-3");
    assert_eq!(trim_brackets("[[1]]]"), "1");
    assert_eq!(trim_brackets("]1["), "]1[");
    assert_eq!(trim_brackets("[]"), "");
    assert_eq!(trim_brackets(""), "");
}

fn stump(threshold: Decimal, left: Decimal, right: Decimal) -> XGBTree<Decimal> {
    XGBTree {
        left_children: vec![1, -1, -1],
        right_children: vec![2, -1, -1],
        split_indices: vec![0, 0, 0],
        split_conditions: vec![threshold, d(0, 0), d(0, 0)],
        base_weights: vec![d(0, 0), left, right],
    }
}

#[test]
fn predictions() {
    let model = XGBModel {
        trees: vec![stump(d(5, 1), d(1, 0), d(2, 0)), stump(d(1, 0), d(10, 0), d(20, 0))],
        base_score: d(5, 1),
    };
    assert_eq!(model.predict(&[d(4, 1)]), d(115, 1));
    // What is not below the condition goes right.
    assert_eq!(model.predict(&[d(5, 1)]), d(125, 1));
    assert_eq!(model.predict(&[d(1, 0)]), d(225, 1));
    let empty: XGBModel<Decimal> = XGBModel { trees: vec![], base_score: d(3, 0) };
    assert_eq!(empty.predict(&[]), d(3, 0));
}

#[test]
fn a_deeper_tree() {
    let tree = XGBTree {
        left_children: vec![1, 3, -1, -1, -1],
        right_children: vec![2, 4, -1, -1, -1],
        split_indices: vec![0, 1, 0, 0, 0],
        split_conditions: vec![d(0, 0), d(0, 0), d(0, 0), d(0, 0), d(0, 0)],
        base_weights: vec![d(0, 0), d(0, 0), d(1, 0), d(2, 0), d(3, 0)],
    };
    let model = XGBModel { trees: vec![tree], base_score: d(0, 0) };
    assert_eq!(model.predict(&[d(1, 0), d(-1, 0)]), d(1, 0));
    assert_eq!(model.predict(&[d(-1, 0), d(-1, 0)]), d(2, 0));
    assert_eq!(model.predict(&[d(-1, 0), d(1, 0)]), d(3, 0));
}
