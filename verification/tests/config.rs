use pacman_duel::backend::config::{optional, required, Config};

fn vars(list: &[(&str, &str)]) -> Vec<(String, String)> {
    list.iter().map(|(k, v)| (k.to_string(), v.to_string())).collect()
}

fn complete() -> Vec<(String, String)> {
    vars(&[
        ("GAMEFLOW_API_URL", "https://gateway/v1/"),
        ("GAMEFLOW_API_KEY", "key"),
        ("GAMEFLOW_GAME_ID", "gm_1"),
        ("GAME_BACKEND_API_TOKEN", "internal"),
        ("JWT_SECRET", "jwt"),
    ])
}

#[test]
fn a_missing_variable_names_itself() {
    let err = required(&[], "GHOSTCHASE_DEFINITELY_NOT_SET").unwrap_err();
    assert_eq!(
        err.message(),
        "missing required environment variable GHOSTCHASE_DEFINITELY_NOT_SET"
    );
}

#[test]
fn optional_falls_back() {
    assert_eq!(
        optional(&[], "GHOSTCHASE_DEFINITELY_NOT_SET", "fallback"),
        "fallback"
    );
}

#[test]
fn a_blank_variable_counts_as_missing() {
    let blank = vars(&[("A", "   ")]);
    assert!(required(&blank, "A").is_err());
    assert_eq!(optional(&blank, "A", "fallback"), "fallback");
    assert_eq!(required(&vars(&[("A", " x ")]), "A").unwrap(), "x");
}

#[test]
fn every_required_setting_is_asked_for() {
    let all = complete();
    assert!(Config::from_env(&all).is_ok());
    for i in 0..all.len() {
        let mut some = all.clone();
        let (key, _) = some.remove(i);
        let err = Config::from_env(&some).unwrap_err();
        assert_eq!(
            err.message(),
            format!("missing required environment variable {key}")
        );
    }
}

#[test]
fn settings_that_are_not_numbers_fall_back() {
    let mut all = complete();
    let base = Config::from_env(&all).unwrap();
    all.push(("PORT".to_string(), "eighty".to_string()));
    let odd = Config::from_env(&all).unwrap();
    assert_eq!(odd.port, base.port);
    all.pop();
    all.push(("PORT".to_string(), "81".to_string()));
    assert_eq!(Config::from_env(&all).unwrap().port, 81);
    all.pop();
    all.push(("PORT".to_string(), "70000".to_string()));
    assert_eq!(Config::from_env(&all).unwrap().port, base.port);
}
