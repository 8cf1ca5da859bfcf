use fy::config::{
    default_base_url, default_cache_mb, default_hotkey, default_max_tokens, default_request_timeout,
    default_stream, default_system_prompt, default_user_prompt, default_window_height,
    default_window_position, default_window_width, persisted_active_provider,
    persisted_input_ratio, ApiFormat, AppConfig, Config, ConfigError, ProviderConfig,
    WindowPosition, DEFAULT_CONFIG,
};
use fy::json::{Json, Number};

fn json_of(v: &serde_json::Value) -> Json {
    match v {
        serde_json::Value::Null => Json::Null,
        serde_json::Value::Bool(b) => Json::Bool(*b),
        serde_json::Value::Number(n) => {
            if let Some(u) = n.as_u64() {
                Json::Num(Number::PosInt(u))
            } else if let Some(i) = n.as_i64() {
                Json::Num(Number::NegInt(i))
            } else {
                Json::Num(Number::Float(n.as_f64().unwrap().to_bits()))
            }
        }
        serde_json::Value::String(s) => Json::Str(s.clone()),
        serde_json::Value::Array(a) => Json::Array(a.iter().map(json_of).collect()),
        serde_json::Value::Object(o) => {
            Json::Object(o.iter().map(|(k, v)| (k.clone(), json_of(v))).collect())
        }
    }
}

fn text(t: &toml::Table, key: &str) -> Option<String> {
    t.get(key).and_then(|v| v.as_str()).map(|s| s.to_owned())
}

fn format_of(name: &str) -> ApiFormat {
    match name {
        "responses" => ApiFormat::Responses,
        "chat_completions" => ApiFormat::ChatCompletions,
        "completions" => ApiFormat::Completions,
        other => panic!("unknown api_format {other}"),
    }
}

fn provider_of(t: &toml::Table) -> ProviderConfig {
    let extra = match t.get("extra_params") {
        Some(toml::Value::Table(extra)) => extra
            .iter()
            .map(|(k, v)| (k.clone(), json_of(&serde_json::to_value(v).unwrap())))
            .collect(),
        _ => Vec::new(),
    };
    ProviderConfig {
        name: text(t, "name").unwrap(),
        api_key: text(t, "api_key").unwrap(),
        base_url: text(t, "base_url").unwrap_or_else(default_base_url),
        model: text(t, "model").unwrap(),
        api_format: format_of(&text(t, "api_format").unwrap()),
        stream: t.get("stream").and_then(|v| v.as_bool()).unwrap_or_else(default_stream),
        system_prompt: text(t, "system_prompt").unwrap_or_else(default_system_prompt),
        user_prompt: text(t, "user_prompt").unwrap_or_else(default_user_prompt),
        temperature_bits: (t.get("temperature").and_then(|v| v.as_float()).unwrap_or(0.2f64) as f32)
            .to_bits(),
        max_output_tokens: t
            .get("max_output_tokens")
            .and_then(|v| v.as_integer())
            .map(|v| v as u32)
            .unwrap_or_else(default_max_tokens),
        request_timeout_seconds: t
            .get("request_timeout_seconds")
            .and_then(|v| v.as_integer())
            .map(|v| v as u64)
            .unwrap_or_else(default_request_timeout),
        extra_params: extra,
    }
}

fn config_of(source: &str) -> Config {
    let table: toml::Table = toml::from_str(source).unwrap();
    let app = table.get("app").and_then(|v| v.as_table()).cloned().unwrap_or_default();
    let position = match text(&app, "window_position").as_deref() {
        Some("fixed") => WindowPosition::Fixed,
        Some("auto") => WindowPosition::Auto,
        None => default_window_position(),
        Some(other) => panic!("unknown window_position {other}"),
    };
    Config {
        active_provider: text(&table, "active_provider").unwrap(),
        user_language: text(&table, "user_language").unwrap(),
        second_language: text(&table, "second_language").unwrap(),
        providers: table
            .get("providers")
            .and_then(|v| v.as_array())
            .unwrap()
            .iter()
            .map(|p| provider_of(p.as_table().unwrap()))
            .collect(),
        app: AppConfig {
            hotkey: text(&app, "hotkey").unwrap_or_else(default_hotkey),
            cache_max_mb: app
                .get("cache_max_mb")
                .and_then(|v| v.as_integer())
                .map(|v| v as u64)
                .unwrap_or_else(default_cache_mb),
            window_width: app
                .get("window_width")
                .and_then(|v| v.as_integer())
                .map(|v| v as i32)
                .unwrap_or_else(default_window_width),
            window_height: app
                .get("window_height")
                .and_then(|v| v.as_integer())
                .map(|v| v as i32)
                .unwrap_or_else(default_window_height),
            input_ratio_bits: (app.get("input_ratio").and_then(|v| v.as_float()).unwrap_or(0.4f64)
                as f32)
                .to_bits(),
            window_position: position,
            window_x: app.get("window_x").and_then(|v| v.as_integer()).map(|v| v as i32),
            window_y: app.get("window_y").and_then(|v| v.as_integer()).map(|v| v as i32),
            always_on_top: app.get("always_on_top").and_then(|v| v.as_bool()).unwrap_or(false),
            autostart: app.get("autostart").and_then(|v| v.as_bool()).unwrap_or(false),
        },
    }
}

#[test]
fn default_config_is_valid() {
    let config = config_of(DEFAULT_CONFIG);
    config.validate().unwrap();
    assert_eq!(config.providers.len(), 2);
    assert!(config.providers.iter().all(|provider| provider.stream));
    assert_eq!(config.active_provider().name, "OpenAI");
    assert_eq!(config.cache_limit_bytes(), 10 * 1024 * 1024);
    assert_eq!(config.app.window_width, 480);
    assert_eq!(config.app.window_height, 520);
    assert_eq!(f32::from_bits(config.app.input_ratio_bits), 0.4);
    assert!(!config.app.always_on_top);
}

#[test]
fn existing_configs_default_to_streaming() {
    let previous_template = DEFAULT_CONFIG.replace("stream = true\n", "");
    let config = config_of(&previous_template);
    assert!(config.providers.iter().all(|provider| provider.stream));
}

#[test]
fn rejects_missing_active_provider() {
    let mut config = config_of(DEFAULT_CONFIG);
    config.active_provider = "missing".into();
    assert!(config.validate().is_err());
}

#[test]
fn provider_selection_is_persisted_without_removing_comments() {
    let mut config = config_of(DEFAULT_CONFIG);
    let saved = config.select_provider("DeepSeek", DEFAULT_CONFIG).unwrap();
    let reloaded = config_of(&saved);
    assert_eq!(reloaded.active_provider, "DeepSeek");
    assert!(saved.contains("# fy 配置文件"));
    assert_eq!(config.active_provider, "DeepSeek");
}

#[test]
fn input_ratio_is_persisted_without_duplicate_keys() {
    let mut config = config_of(DEFAULT_CONFIG);
    let ratio = 0.65f32;
    let saved = config
        .set_input_ratio(ratio.to_bits(), &format!("{ratio:.3}"), DEFAULT_CONFIG)
        .unwrap();
    let reloaded = config_of(&saved);
    assert_eq!(f32::from_bits(reloaded.app.input_ratio_bits), 0.65);
    assert_eq!(saved.matches("input_ratio =").count(), 1);
    assert_eq!(f32::from_bits(config.app.input_ratio_bits), 0.65);
}

#[test]
fn unknown_provider_selection_is_refused_and_changes_nothing() {
    let mut config = config_of(DEFAULT_CONFIG);
    assert_eq!(
        config.select_provider("Missing", DEFAULT_CONFIG),
        Err(ConfigError::UnknownProvider)
    );
    assert_eq!(config.active_provider, "OpenAI");
}

#[test]
fn out_of_range_ratio_is_refused() {
    let mut config = config_of(DEFAULT_CONFIG);
    for ratio in [0.1f32, 0.81, -0.5, f32::NAN] {
        assert_eq!(
            config.set_input_ratio(ratio.to_bits(), "x", DEFAULT_CONFIG),
            Err(ConfigError::RatioOutOfRange)
        );
    }
    assert_eq!(f32::from_bits(config.app.input_ratio_bits), 0.4);
    for ratio in [0.2f32, 0.8] {
        assert!(config.set_input_ratio(ratio.to_bits(), "x", DEFAULT_CONFIG).is_ok());
    }
}

#[test]
fn active_provider_line_is_added_when_missing() {
    let saved = persisted_active_provider("# note\r\n[app]\n", "\"X\"");
    assert_eq!(saved, "active_provider = \"X\"\n\n# note\n[app]\n");
}

#[test]
fn only_the_first_active_provider_line_is_replaced() {
    let saved = persisted_active_provider(
        "a\n  active_provider = \"A\"\nactive_provider = \"B\"",
        "\"C\"",
    );
    assert_eq!(saved, "a\nactive_provider = \"C\"\nactive_provider = \"B\"\n");
}

#[test]
fn input_ratio_is_added_after_app_section() {
    let saved = persisted_input_ratio("x = 1\n  [app]  \nhotkey = \"Alt+X\"\n", "0.500");
    assert_eq!(
        saved,
        "x = 1\n  [app]  \ninput_ratio = 0.500\nhotkey = \"Alt+X\"\n"
    );
    let replaced = persisted_input_ratio("input_ratio = 0.4\n[app]\n input_ratio=1\n", "0.300");
    assert_eq!(replaced, "input_ratio = 0.300\n[app]\n input_ratio=1\n");
}

fn valid() -> Config {
    config_of(DEFAULT_CONFIG)
}

#[test]
fn each_rule_reports_its_error() {
    let mut c = valid();
    c.user_language = " \t".into();
    assert_eq!(c.validate(), Err(ConfigError::BlankLanguage));

    let mut c = valid();
    c.second_language = "ZH-cn".into();
    assert_eq!(c.validate(), Err(ConfigError::SameLanguages));

    let mut c = valid();
    c.providers.clear();
    assert_eq!(c.validate(), Err(ConfigError::NoProviders));

    let mut c = valid();
    let first = config_of(DEFAULT_CONFIG).providers.remove(0);
    for i in 0..1000 {
        let mut p = config_of(DEFAULT_CONFIG).providers.remove(0);
        p.name = format!("p{i}");
        c.providers.push(p);
    }
    let _ = first;
    assert_eq!(c.validate(), Err(ConfigError::TooManyProviders));

    let mut c = valid();
    c.providers[1].name = "\u{3000}".into();
    assert_eq!(c.validate(), Err(ConfigError::BlankProviderName { provider: 1 }));

    let mut c = valid();
    c.providers[1].name = "  openai ".into();
    assert_eq!(c.validate(), Err(ConfigError::DuplicateProviderName { provider: 1 }));

    let mut c = valid();
    c.providers[0].model = "".into();
    assert_eq!(c.validate(), Err(ConfigError::BlankModel { provider: 0 }));

    let mut c = valid();
    c.providers[0].base_url = " ".into();
    assert_eq!(c.validate(), Err(ConfigError::BlankBaseUrl { provider: 0 }));

    let mut c = valid();
    c.providers[0].user_prompt = "text".into();
    assert_eq!(c.validate(), Err(ConfigError::MissingPlaceholders { provider: 0 }));

    let mut c = valid();
    c.providers[0].system_prompt = "{target_language".into();
    c.providers[0].user_prompt = "}{text}".into();
    assert_eq!(c.validate(), Err(ConfigError::MissingPlaceholders { provider: 0 }));

    let mut c = valid();
    c.providers[0].temperature_bits = 2.5f32.to_bits();
    assert_eq!(c.validate(), Err(ConfigError::TemperatureOutOfRange { provider: 0 }));

    let mut c = valid();
    c.providers[0].temperature_bits = (-0.0f32).to_bits();
    assert!(c.validate().is_ok());

    let mut c = valid();
    c.providers[0].request_timeout_seconds = 0;
    assert_eq!(c.validate(), Err(ConfigError::ZeroLimit { provider: 0 }));

    let mut c = valid();
    c.providers[1].extra_params = vec![
        ("top_p".into(), Json::Num(Number::Float(0.9f64.to_bits()))),
        ("max_tokens".into(), Json::Num(Number::PosInt(1))),
    ];
    assert_eq!(
        c.validate(),
        Err(ConfigError::ReservedExtraParam { provider: 1, param: 1 })
    );

    let mut c = valid();
    c.providers[0].extra_params = vec![("max_tokens".into(), Json::Num(Number::PosInt(1)))];
    assert!(c.validate().is_ok());

    let mut c = valid();
    c.active_provider = "openai".into();
    assert_eq!(c.validate(), Err(ConfigError::UnknownActiveProvider));

    let mut c = valid();
    c.app.cache_max_mb = 0;
    assert_eq!(c.validate(), Err(ConfigError::ZeroCacheSize));

    let mut c = valid();
    c.app.window_height = 299;
    assert_eq!(c.validate(), Err(ConfigError::WindowTooSmall));

    let mut c = valid();
    c.app.input_ratio_bits = 0.9f32.to_bits();
    assert_eq!(c.validate(), Err(ConfigError::InputRatioOutOfRange));

    let mut c = valid();
    c.app.window_position = WindowPosition::Fixed;
    c.app.window_x = Some(1);
    assert_eq!(c.validate(), Err(ConfigError::FixedPositionWithoutCoordinates));
    c.app.window_y = Some(2);
    assert!(c.validate().is_ok());
}

#[test]
fn cache_limit_saturates() {
    let mut c = valid();
    c.app.cache_max_mb = u64::MAX / 1024;
    assert_eq!(c.cache_limit_bytes(), u64::MAX);
    c.app.cache_max_mb = 3;
    assert_eq!(c.cache_limit_bytes(), 3 * 1024 * 1024);
}

#[test]
fn defaults_match_the_template() {
    assert_eq!(default_base_url(), "https://api.openai.com/v1");
    assert_eq!(
        default_system_prompt(),
        "Translate into {target_language}. Return only the translation."
    );
    assert_eq!(default_user_prompt(), "{text}");
    assert_eq!(default_hotkey(), "Alt+X");
    assert_eq!(default_max_tokens(), 2048);
    assert_eq!(default_request_timeout(), 60);
    assert_eq!(default_cache_mb(), 10);
    assert_eq!(default_window_width(), 480);
    assert_eq!(default_window_height(), 520);
    assert_eq!(default_window_position(), WindowPosition::Auto);
    assert!(default_stream());
}

#[test]
fn fixed_corner_needs_both_coordinates() {
    let mut config = config_of(DEFAULT_CONFIG);
    assert_eq!(config.app.fixed_corner(), None);
    config.app.window_position = WindowPosition::Fixed;
    assert_eq!(config.app.fixed_corner(), None);
    config.app.window_x = Some(100);
    assert_eq!(config.app.fixed_corner(), None);
    config.app.window_y = Some(-20);
    assert_eq!(config.app.fixed_corner(), Some((100, -20)));
    config.app.window_position = WindowPosition::Auto;
    assert_eq!(config.app.fixed_corner(), None);
}
