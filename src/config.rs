use vstd::prelude::*;

verus! {

/// Broker seed address used where none is configured.
pub const DEFAULT_KAFKA_SEED: &'static str = "127.0.0.1:9092";

/// Ranked-store address used where none is configured.
pub const DEFAULT_REDIS_HOST: &'static str = "redis://localhost:6379";

/// A configuration value and whether it fell back to its default.
#[derive(Debug)]
pub struct Setting {
    pub value: String,
    pub defaulted: bool,
}

/// A startup configuration that cannot run.
#[derive(Debug)]
pub enum ConfigError {
    /// No topic to subscribe to was named.
    NoTopics,
}

/// The configured value, or `default` (flagged, so that the caller can warn) where none is set.
pub fn setting_or_default(value: Option<String>, default: &str) -> (r: Setting)
    ensures
        value matches Some(v) ==> r.value@ == v@ && !r.defaulted,
        value is None ==> r.value@ == default@ && r.defaulted,
{
    match value {
        Some(v) => Setting { value: v, defaulted: false },
        None => Setting { value: default.to_owned(), defaulted: true },
    }
}

/// The topics named on the command line: every argument after the program name, at least one.
pub fn topics_from_args(args: &Vec<String>) -> (r: Result<Vec<String>, ConfigError>)
    ensures
        args@.len() < 2 ==> r is Err,
        args@.len() >= 2 ==> (r matches Ok(t) && t@.map_values(|s: String| s@)
            == args@.drop_first().map_values(|s: String| s@)),
{
    if args.len() < 2 {
        return Err(ConfigError::NoTopics);
    }
    let mut topics: Vec<String> = Vec::new();
    let mut i: usize = 1;
    while i < args.len()
        invariant
            1 <= i <= args@.len(),
            topics@.len() == i - 1,
            forall|k: int| 0 <= k < i - 1 ==> (#[trigger] topics@[k])@ == args@[k + 1]@,
        decreases args@.len() - i,
    {
        let ghost before = topics@;
        topics.push(args[i].clone());
        proof {
            assert forall|k: int| 0 <= k < i implies (#[trigger] topics@[k])@ == args@[k + 1]@ by {
                if k < i - 1 {
                    assert(topics@[k] == before[k]);
                }
            }
        }
        i = i + 1;
    }
    proof {
        assert(topics@.map_values(|s: String| s@) =~= args@.drop_first().map_values(|s: String| s@));
    }
    Ok(topics)
}

} // verus!
