use std::collections::HashMap;

use wordcount::config::{setting_or_default, topics_from_args, ConfigError, DEFAULT_KAFKA_SEED};
use wordcount::ingest::{next_action, ConsumeEvent, LoopAction, MessagePayload};
use wordcount::query::{failure_status, parse_counts_query, QueryFailure, RequestError};
use wordcount::ranked::{summarize_increments, GroupError, RedisCache};
use wordcount::score::parse_i64;
use wordcount::tokenizer::{split_words, tokenize, TokenCounts};

fn strings(items: &[&str]) -> Vec<String> {
    items.iter().map(|s| s.to_string()).collect()
}

fn pairs(items: &[(&str, i64)]) -> Vec<(String, i64)> {
    items.iter().map(|(t, s)| (t.to_string(), *s)).collect()
}

fn as_map(counts: &TokenCounts) -> HashMap<String, usize> {
    counts.entries().into_iter().collect()
}

fn apply(store: &mut HashMap<String, i64>, counts: &TokenCounts) {
    for (token, count) in counts.entries() {
        *store.entry(token).or_insert(0) += count as i64;
    }
}

fn ranked(store: &HashMap<String, i64>) -> Vec<String> {
    let mut items: Vec<(String, i64)> = store.iter().map(|(k, v)| (k.clone(), *v)).collect();
    items.sort_by(|a, b| b.1.cmp(&a.1).then(a.0.cmp(&b.0)));
    let mut flat = Vec::new();
    for (t, s) in items {
        flat.push(t);
        flat.push(s.to_string());
    }
    flat
}

#[test]
fn tokenize_empty_payload_is_empty() {
    let c = tokenize("");
    assert_eq!(c.len(), 0);
    assert!(c.entries().is_empty());
}

#[test]
fn tokenize_counts_repeats() {
    let c = tokenize("a a b");
    assert_eq!(c.len(), 2);
    assert_eq!(c.get("a"), 2);
    assert_eq!(c.get("b"), 1);
    assert_eq!(c.get("c"), 0);
    assert_eq!(c.entries(), vec![("a".to_string(), 2), ("b".to_string(), 1)]);
}

#[test]
fn tokenize_splits_on_whitespace_runs() {
    let c = tokenize("a\tb  c");
    let expected: HashMap<String, usize> =
        vec![("a".to_string(), 1), ("b".to_string(), 1), ("c".to_string(), 1)].into_iter().collect();
    assert_eq!(as_map(&c), expected);
}

#[test]
fn tokenize_keeps_case_and_punctuation() {
    let c = tokenize("  The the, the\n\u{3000}THE\u{a0}");
    assert_eq!(c.get("The"), 1);
    assert_eq!(c.get("the,"), 1);
    assert_eq!(c.get("the"), 1);
    assert_eq!(c.get("THE"), 1);
    assert_eq!(c.len(), 4);
}

#[test]
fn split_words_matches_std() {
    let text = " x\u{2003}yy \r\n zz\u{85}w ";
    let expected: Vec<String> = text.split_whitespace().map(|s| s.to_string()).collect();
    assert_eq!(split_words(text), expected);
}

#[test]
fn increments_commute() {
    let first = tokenize("a a");
    let second = tokenize("a a a");
    let mut one = HashMap::new();
    apply(&mut one, &first);
    apply(&mut one, &second);
    let mut two = HashMap::new();
    apply(&mut two, &second);
    apply(&mut two, &first);
    assert_eq!(one.get("a"), Some(&5));
    assert_eq!(one, two);
}

#[test]
fn top_n_takes_highest_scores() {
    let reply = strings(&["c", "8", "a", "5", "b", "3"]);
    assert_eq!(RedisCache::range_stop(Some(2)), 1);
    let top = RedisCache::top_n_from_reply(reply.clone(), Some(2)).unwrap();
    assert_eq!(top, pairs(&[("c", 8), ("a", 5)]));
    let all = RedisCache::top_n_from_reply(reply, None).unwrap();
    assert_eq!(all, pairs(&[("c", 8), ("a", 5), ("b", 3)]));
}

#[test]
fn top_n_zero_and_negative_return_all() {
    let reply = strings(&["c", "8", "a", "5", "b", "3"]);
    assert_eq!(RedisCache::range_stop(None), -1);
    assert_eq!(RedisCache::range_stop(Some(0)), -1);
    assert_eq!(RedisCache::range_stop(Some(-1)), -1);
    for n in [Some(0), Some(-1), None] {
        let all = RedisCache::top_n_from_reply(reply.clone(), n).unwrap();
        assert_eq!(all.len(), 3);
    }
}

#[test]
fn top_n_of_empty_topic_is_empty() {
    let top = RedisCache::top_n_from_reply(Vec::new(), Some(5)).unwrap();
    assert!(top.is_empty());
    assert_eq!(RedisCache::range_stop(Some(5)), 4);
}

#[test]
fn top_n_caps_an_oversized_reply() {
    let reply = strings(&["x", "9", "y", "2"]);
    let top = RedisCache::top_n_from_reply(reply, Some(1)).unwrap();
    assert_eq!(top, pairs(&[("x", 9)]));
}

#[test]
fn group_counts_pairs_in_order() {
    let reply = strings(&["the", "3", "dog", "1"]);
    assert_eq!(RedisCache::group_counts(reply), Ok(pairs(&[("the", 3), ("dog", 1)])));
}

#[test]
fn group_counts_rejects_odd_length() {
    let reply = strings(&["the", "3", "dog"]);
    assert_eq!(RedisCache::group_counts(reply), Err(GroupError::OddLength { len: 3 }));
}

#[test]
fn group_counts_rejects_bad_score() {
    let reply = strings(&["the", "3", "dog", "many"]);
    assert_eq!(RedisCache::group_counts(reply), Err(GroupError::BadScore { index: 3 }));
    let reply = strings(&["the", "", "dog", "x"]);
    assert_eq!(RedisCache::top_n_from_reply(reply, Some(1)), Err(GroupError::BadScore { index: 1 }));
}

#[test]
fn parse_i64_matches_std() {
    for s in [
        "0", "42", "+7", "-7", "-", "+", "", "1a", " 1", "007",
        "9223372036854775807", "9223372036854775808", "-9223372036854775808",
        "-9223372036854775809", "99999999999999999999999",
    ] {
        assert_eq!(parse_i64(s), s.parse::<i64>().ok(), "input {:?}", s);
    }
    assert_eq!(parse_i64("-9223372036854775808"), Some(i64::MIN));
}

#[test]
fn end_to_end_books() {
    let mut store: HashMap<String, i64> = HashMap::new();
    let event = ConsumeEvent::Message {
        topic: "books".to_string(),
        payload: MessagePayload::new("the cat sat on the mat".to_string()),
    };
    match next_action(event) {
        LoopAction::Persist { topic, deltas } => {
            assert_eq!(topic, "books");
            apply(&mut store, &deltas);
        }
        _ => panic!("a message must be persisted"),
    }
    let top = RedisCache::top_n_from_reply(ranked(&store), Some(3)).unwrap();
    assert_eq!(top.len(), 3);
    assert_eq!(top[0], ("the".to_string(), 2));
    assert!(top[1..].iter().all(|(_, s)| *s == 1));
    let event = ConsumeEvent::Message {
        topic: "books".to_string(),
        payload: MessagePayload::new("the dog".to_string()),
    };
    if let LoopAction::Persist { deltas, .. } = next_action(event) {
        apply(&mut store, &deltas);
    }
    let top = RedisCache::top_n_from_reply(ranked(&store), Some(1)).unwrap();
    assert_eq!(top, pairs(&[("the", 3)]));
}

#[test]
fn failed_write_does_not_stop_next_message() {
    let first = match next_action(ConsumeEvent::Message {
        topic: "X".to_string(),
        payload: MessagePayload::new("m1 words".to_string()),
    }) {
        LoopAction::Persist { deltas, .. } => deltas.entries(),
        _ => panic!("a message must be persisted"),
    };
    let outcomes = vec![Some("connection reset".to_string()), None];
    let failed = summarize_increments(&first, &outcomes).unwrap_err();
    assert_eq!(failed.len(), 1);
    assert_eq!(failed[0].token, "m1");
    assert_eq!(failed[0].reason, "connection reset");
    match next_action(ConsumeEvent::Message {
        topic: "Y".to_string(),
        payload: MessagePayload::new("m2".to_string()),
    }) {
        LoopAction::Persist { topic, deltas } => {
            assert_eq!(topic, "Y");
            assert_eq!(deltas.get("m2"), 1);
            let ok = summarize_increments(&deltas.entries(), &vec![None]);
            assert!(ok.is_ok());
        }
        _ => panic!("the next message must still be persisted"),
    }
}

#[test]
fn other_poll_outcomes_keep_polling() {
    assert!(matches!(
        next_action(ConsumeEvent::EndOfPartition { partition: 3 }),
        LoopAction::NoteEndOfPartition { partition: 3 }
    ));
    match next_action(ConsumeEvent::TransportError { reason: "down".to_string() }) {
        LoopAction::ReportTransportError { reason } => assert_eq!(reason, "down"),
        _ => panic!("transport errors are reported"),
    }
    assert!(matches!(next_action(ConsumeEvent::Idle), LoopAction::Wait));
}

#[test]
fn summarize_reports_every_failed_token() {
    let entries = vec![("a".to_string(), 1), ("b".to_string(), 2), ("c".to_string(), 3)];
    let outcomes = vec![Some("e1".to_string()), None, Some("e3".to_string())];
    let failed = summarize_increments(&entries, &outcomes).unwrap_err();
    let tokens: Vec<&str> = failed.iter().map(|f| f.token.as_str()).collect();
    assert_eq!(tokens, vec!["a", "c"]);
    assert!(summarize_increments(&entries, &vec![None, None, None]).is_ok());
}

#[test]
fn counts_query_missing_topic_is_bad_request() {
    let r = parse_counts_query(None, Some("5".to_string()));
    assert!(matches!(r, Err(RequestError::MissingTopic)));
    let status = failure_status(&QueryFailure::BadRequest(r.err().unwrap()));
    assert_eq!(status, 400);
}

#[test]
fn counts_query_bad_n_is_bad_request() {
    let r = parse_counts_query(Some("books".to_string()), Some("abc".to_string()));
    match r {
        Err(RequestError::InvalidN { text }) => assert_eq!(text, "abc"),
        _ => panic!("n must be an integer"),
    }
}

#[test]
fn counts_query_accepts_topic_and_n() {
    let q = parse_counts_query(Some("books".to_string()), Some("-1".to_string())).unwrap();
    assert_eq!(q.topic, "books");
    assert_eq!(q.n, Some(-1));
    let q = parse_counts_query(Some("books".to_string()), None).unwrap();
    assert_eq!(q.n, None);
}

#[test]
fn store_failures_map_to_server_statuses() {
    assert_eq!(failure_status(&QueryFailure::StoreUnavailable("down".to_string())), 503);
    assert_eq!(failure_status(&QueryFailure::StoreFailed("bad".to_string())), 500);
}

#[test]
fn topics_come_from_arguments() {
    let args = strings(&["server", "books", "news"]);
    assert_eq!(topics_from_args(&args).ok().unwrap(), strings(&["books", "news"]));
    assert!(matches!(topics_from_args(&strings(&["server"])), Err(ConfigError::NoTopics)));
}

#[test]
fn settings_fall_back_to_defaults() {
    let s = setting_or_default(None, DEFAULT_KAFKA_SEED);
    assert_eq!(s.value, "127.0.0.1:9092");
    assert!(s.defaulted);
    let s = setting_or_default(Some("broker:1".to_string()), DEFAULT_KAFKA_SEED);
    assert_eq!(s.value, "broker:1");
    assert!(!s.defaulted);
}

#[test]
fn payload_from_decoded() {
    assert_eq!(MessagePayload::from_decoded(None).as_str(), "");
    assert_eq!(MessagePayload::from_decoded(Some(Ok("hi".to_string()))).as_str(), "hi");
    assert_eq!(MessagePayload::from_decoded(Some(Err("bad utf8".to_string()))).as_str(), "bad utf8");
}
