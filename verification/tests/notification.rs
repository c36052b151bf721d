use auction_core::notification::{
    GasCost, Kind, Notification, Quality, Score, ScoreKind, Settlement,
};
use auction_core::settlement::TxId;

#[test]
fn score_quality_and_gas_cost_wrap_amounts() {
    assert_eq!(Score::from(5u128), Score(5));
    assert_eq!(Quality::from(7u128), Quality(7));
    assert_eq!(GasCost::from(9u128), GasCost(9));
}

#[test]
fn notifications_carry_their_payloads() {
    let n = Notification {
        auction_id: 7,
        solution_id: Some(1),
        kind: Kind::ScoringFailed(ScoreKind::ScoreHigherThanQuality(Score(10), Quality(4))),
    };
    assert_eq!(n.auction_id, 7);
    match n.kind {
        Kind::ScoringFailed(ScoreKind::ScoreHigherThanQuality(score, quality)) => {
            assert_eq!(score, Score(10));
            assert_eq!(quality, Quality(4));
        },
        other => panic!("unexpected: {other:?}"),
    }

    let settled = Kind::Settled(Settlement::Revert(TxId(3)));
    assert!(matches!(
        settled,
        Kind::Settled(Settlement::Revert(TxId(3)))
    ));
}
