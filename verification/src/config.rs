//! The configuration: its types, the rules a loaded configuration must meet,
//! and the edits that the tray menu and the splitter write back.

use vstd::prelude::*;
use crate::geometry::{MIN_WINDOW_HEIGHT, MIN_WINDOW_WIDTH};
use crate::json::Json;
use crate::text::{
    blank, chars_of, clean_line, contains, contains_seq, has_prefix, is_blank, joined_lines,
    lemma_lines_have_no_lf, lemma_lines_of_joined, lines, lines_seq, lower_seq,
    lowercase, seq_eq, starts_with, string_of, trim, trim_seq, trim_start, trim_start_seq, views,
};

verus! {

/// The annotated template written on first run.
pub const DEFAULT_CONFIG: &'static str = r#"# fy 配置文件
# 修改后在托盘菜单选择“重新加载配置”。服务商也可以直接从托盘菜单切换。

# 当前服务商，必须与下面某个 [[providers]] 的 name 完全一致。
active_provider = "OpenAI"

# 语言使用 BCP 47/ISO 639 代码或英文名称。识别为 user_language 时翻译到
# second_language，否则翻译到 user_language。
user_language = "zh-CN"
second_language = "en"

# api_format 必须显式填写：responses、chat_completions 或 completions。
# stream 默认开启；设为 false 时会等待完整响应后一次性显示。
# extra_params 会作为 JSON 顶层字段追加到请求，适合 reasoning_effort、top_p 等服务商参数。
[[providers]]
name = "OpenAI"
api_key = ""
base_url = "https://api.openai.com/v1"
model = "gpt-4.1-mini"
api_format = "responses"
stream = true
system_prompt = "You are a translation engine. Translate into {target_language}. Preserve meaning, tone, formatting, and proper nouns. Return only the translation."
user_prompt = "{text}"
temperature = 0.2
max_output_tokens = 2048
request_timeout_seconds = 60
extra_params = {}

[[providers]]
name = "DeepSeek"
api_key = ""
base_url = "https://api.deepseek.com"
model = "deepseek-v4-flash"
api_format = "chat_completions"
stream = true
system_prompt = "You are a translation engine. Translate into {target_language}. Preserve meaning, tone, formatting, and proper nouns. Return only the translation."
user_prompt = "{text}"
temperature = 0.2
max_output_tokens = 2048
request_timeout_seconds = 60
extra_params = {}

[app]
# 全局快捷键支持 Ctrl、Alt、Shift、Win 加一个字母或数字。
hotkey = "Alt+X"
cache_max_mb = 10
autostart = false

# auto 会在显示浮窗时跟随鼠标并限制在当前显示器内；fixed 使用 window_x/window_y。
window_position = "auto"
window_width = 480
window_height = 520
input_ratio = 0.4
# window_x = 100
# window_y = 100
# 普通显示浮窗时的初始置顶状态；快捷键未复制到文本时仍会自动切换为置顶。
always_on_top = false
"#;

/// Which OpenAI API a provider speaks.
#[derive(Clone, Copy, Debug, PartialEq, Eq, Structural)]
pub enum ApiFormat {
    Responses,
    ChatCompletions,
    Completions,
}

/// Where the popup appears.
#[derive(Clone, Copy, Debug, PartialEq, Eq, Structural)]
pub enum WindowPosition {
    Auto,
    Fixed,
}

#[verifier::external_type_specification]
#[verifier::external_body]
pub struct ExPathBuf(std::path::PathBuf);

/// Where the configuration and the cache live.
#[derive(Debug)]
pub struct Paths {
    pub root: std::path::PathBuf,
    pub config: std::path::PathBuf,
    pub cache: std::path::PathBuf,
}

/// One translation service.
///
/// Floating-point settings are held by their IEEE 754 single-precision bit
/// pattern; `extra_params` lists the extra request fields in ascending key
/// order, each key once ([`distinct_keys`]), as the TOML table they are read
/// from gives them.
#[derive(Clone, Debug)]
pub struct ProviderConfig {
    pub name: String,
    pub api_key: String,
    pub base_url: String,
    pub model: String,
    pub api_format: ApiFormat,
    pub stream: bool,
    pub system_prompt: String,
    pub user_prompt: String,
    pub temperature_bits: u32,
    pub max_output_tokens: u32,
    pub request_timeout_seconds: u64,
    pub extra_params: Vec<(String, Json)>,
}

/// Application settings; `input_ratio_bits` is the bit pattern of an `f32`.
#[derive(Clone, Debug)]
pub struct AppConfig {
    pub hotkey: String,
    pub cache_max_mb: u64,
    pub window_width: i32,
    pub window_height: i32,
    pub input_ratio_bits: u32,
    pub window_position: WindowPosition,
    pub window_x: Option<i32>,
    pub window_y: Option<i32>,
    pub always_on_top: bool,
    pub autostart: bool,
}

/// The whole configuration file.
#[derive(Clone, Debug)]
pub struct Config {
    pub active_provider: String,
    pub user_language: String,
    pub second_language: String,
    pub providers: Vec<ProviderConfig>,
    pub app: AppConfig,
}

/// No two extra parameters share a key.
pub open spec fn distinct_keys(params: Seq<(String, Json)>) -> bool {
    forall|a: int, b: int| 0 <= a < b < params.len() ==> (#[trigger] params[a]).0@ != (#[trigger] params[b]).0@
}

/// Why a configuration, or an edit of it, is refused. Provider errors name the
/// provider by its index in `providers`; a reserved extra parameter is named
/// by its index in that provider's `extra_params`.
#[derive(Clone, Copy, Debug, PartialEq, Eq, Structural)]
pub enum ConfigError {
    BlankLanguage,
    SameLanguages,
    NoProviders,
    TooManyProviders,
    BlankProviderName { provider: usize },
    DuplicateProviderName { provider: usize },
    BlankModel { provider: usize },
    BlankBaseUrl { provider: usize },
    MissingPlaceholders { provider: usize },
    TemperatureOutOfRange { provider: usize },
    ZeroLimit { provider: usize },
    ReservedExtraParam { provider: usize, param: usize },
    UnknownActiveProvider,
    ZeroCacheSize,
    WindowTooSmall,
    InputRatioOutOfRange,
    FixedPositionWithoutCoordinates,
    UnknownProvider,
    RatioOutOfRange,
}

/// The largest number of providers a configuration may list.
pub const MAX_PROVIDERS: usize = 1000;

/// Bit pattern of the `f32` 2.0, the highest temperature.
pub const TEMPERATURE_MAX_BITS: u32 = 0x4000_0000u32;

/// Bit pattern of the `f32` 0.2, the lowest input ratio.
pub const INPUT_RATIO_MIN_BITS: u32 = 0x3e4c_cccdu32;

/// Bit pattern of the `f32` 0.8, the highest input ratio.
pub const INPUT_RATIO_MAX_BITS: u32 = 0x3f4c_cccdu32;

/// Whether the `f32` with bit pattern `bits` lies in the closed range whose
/// ends have the bit patterns `lo <= hi` of two finite floats with `0.0 <= lo`.
/// Non-negative floats are ordered as their bit patterns are; `-0.0`
/// (`0x8000_0000`) equals `0.0`; all other negative values and every NaN fall
/// outside such a range.
pub open spec fn f32_bits_within(bits: u32, lo: u32, hi: u32) -> bool {
    (lo <= bits && bits <= hi) || (lo == 0 && bits == 0x8000_0000)
}

/// `(lo..=hi).contains(&x)` for the `f32` `x` with bit pattern `bits`.
pub fn f32_within(bits: u32, lo: u32, hi: u32) -> (r: bool)
    ensures
        r == f32_bits_within(bits, lo, hi),
{
    (lo <= bits && bits <= hi) || (lo == 0 && bits == 0x8000_0000)
}

/// The name under which duplicates are detected: trimmed, ASCII lower case.
pub open spec fn normalized_name(s: Seq<char>) -> Seq<char> {
    lower_seq(trim_seq(s))
}

/// The request fields that a provider's extra parameters may not set.
pub open spec fn is_reserved_param(format: ApiFormat, key: Seq<char>) -> bool {
    ||| key == "model"@
    ||| key == "temperature"@
    ||| key == "stream"@
    ||| match format {
        ApiFormat::Responses => key == "instructions"@ || key == "input"@ || key
            == "max_output_tokens"@,
        ApiFormat::ChatCompletions => key == "messages"@ || key == "max_completion_tokens"@ || key
            == "max_tokens"@,
        ApiFormat::Completions => key == "prompt"@ || key == "max_tokens"@,
    }
}

/// Index of the first extra parameter, from `k` on, whose key is reserved.
pub open spec fn first_reserved_from(
    format: ApiFormat,
    params: Seq<(String, Json)>,
    k: int,
) -> Option<int>
    decreases params.len() - k,
{
    if k < 0 || k >= params.len() {
        None
    } else if is_reserved_param(format, params[k].0@) {
        Some(k)
    } else {
        first_reserved_from(format, params, k + 1)
    }
}

/// The system and user prompts as one text, as the placeholder check reads them.
pub open spec fn joined_prompts(p: ProviderConfig) -> Seq<char> {
    p.system_prompt@ + seq!['\n'] + p.user_prompt@
}

/// The first rule that provider `i` breaks, given that the providers before it
/// passed.
pub open spec fn provider_error(c: Config, i: int) -> Option<ConfigError> {
    let p = c.providers@[i];
    let prompts = joined_prompts(p);
    if is_blank(p.name@) {
        Some(ConfigError::BlankProviderName { provider: i as usize })
    } else if exists|j: int|
        0 <= j < i && normalized_name(#[trigger] c.providers@[j].name@) == normalized_name(
            p.name@,
        ) {
        Some(ConfigError::DuplicateProviderName { provider: i as usize })
    } else if is_blank(p.model@) {
        Some(ConfigError::BlankModel { provider: i as usize })
    } else if is_blank(p.base_url@) {
        Some(ConfigError::BlankBaseUrl { provider: i as usize })
    } else if !contains_seq(prompts, "{target_language}"@) || !contains_seq(prompts, "{text}"@) {
        Some(ConfigError::MissingPlaceholders { provider: i as usize })
    } else if !f32_bits_within(p.temperature_bits, 0, TEMPERATURE_MAX_BITS) {
        Some(ConfigError::TemperatureOutOfRange { provider: i as usize })
    } else if p.max_output_tokens == 0 || p.request_timeout_seconds == 0 {
        Some(ConfigError::ZeroLimit { provider: i as usize })
    } else {
        match first_reserved_from(p.api_format, p.extra_params@, 0) {
            Some(k) => Some(ConfigError::ReservedExtraParam { provider: i as usize, param: k as usize }),
            None => None,
        }
    }
}

/// The first provider error at index `i` or later.
pub open spec fn providers_error_from(c: Config, i: int) -> Option<ConfigError>
    decreases c.providers@.len() - i,
{
    if i < 0 || i >= c.providers@.len() {
        None
    } else {
        match provider_error(c, i) {
            Some(e) => Some(e),
            None => providers_error_from(c, i + 1),
        }
    }
}

/// Some provider carries the name `name`.
pub open spec fn has_provider(c: Config, name: Seq<char>) -> bool {
    exists|i: int| 0 <= i < c.providers@.len() && #[trigger] c.providers@[i].name@ == name
}

/// The first rule that a configuration breaks, checked in this order.
pub open spec fn config_error(c: Config) -> Option<ConfigError> {
    if is_blank(c.user_language@) || is_blank(c.second_language@) {
        Some(ConfigError::BlankLanguage)
    } else if lower_seq(c.user_language@) == lower_seq(c.second_language@) {
        Some(ConfigError::SameLanguages)
    } else if c.providers@.len() == 0 {
        Some(ConfigError::NoProviders)
    } else if c.providers@.len() > MAX_PROVIDERS {
        Some(ConfigError::TooManyProviders)
    } else if providers_error_from(c, 0) is Some {
        providers_error_from(c, 0)
    } else if !has_provider(c, c.active_provider@) {
        Some(ConfigError::UnknownActiveProvider)
    } else if c.app.cache_max_mb == 0 {
        Some(ConfigError::ZeroCacheSize)
    } else if c.app.window_width < MIN_WINDOW_WIDTH || c.app.window_height < MIN_WINDOW_HEIGHT {
        Some(ConfigError::WindowTooSmall)
    } else if !f32_bits_within(c.app.input_ratio_bits, INPUT_RATIO_MIN_BITS, INPUT_RATIO_MAX_BITS) {
        Some(ConfigError::InputRatioOutOfRange)
    } else if c.app.window_position == WindowPosition::Fixed && (c.app.window_x is None
        || c.app.window_y is None) {
        Some(ConfigError::FixedPositionWithoutCoordinates)
    } else {
        None
    }
}

/// The configuration breaks no rule.
pub open spec fn valid_config(c: Config) -> bool {
    config_error(c) is None
}

/// With no error from provider `i` on, every provider from `i` on passes.
proof fn lemma_providers_pass(c: Config, i: int, j: int)
    requires
        0 <= i <= j < c.providers@.len(),
        providers_error_from(c, i) is None,
    ensures
        provider_error(c, j) is None,
    decreases j - i,
{
    if i < j {
        lemma_providers_pass(c, i + 1, j);
    }
}

/// What an accepted configuration guarantees: both languages are set and
/// differ (ignoring ASCII case); there are 1 to 1000 providers with distinct
/// names (trimmed, ignoring ASCII case), each with a name, a model and a base
/// URL, prompts holding both placeholders, a temperature from 0 to 2, a
/// positive token limit and timeout, and no extra parameter that sets a
/// generated field; the active provider is one of them; the cache budget is
/// positive; the popup is at least 360 by 300 pixels; the input ratio lies in
/// 0.2 ..= 0.8; and a fixed placement has both coordinates.
pub proof fn law_accepted_configuration(c: Config)
    requires
        config_error(c) is None,
    ensures
        !is_blank(c.user_language@) && !is_blank(c.second_language@),
        lower_seq(c.user_language@) != lower_seq(c.second_language@),
        1 <= c.providers@.len() <= 1000,
        has_provider(c, c.active_provider@),
        c.app.cache_max_mb > 0,
        c.app.window_width >= 360,
        c.app.window_height >= 300,
        f32_bits_within(c.app.input_ratio_bits, INPUT_RATIO_MIN_BITS, INPUT_RATIO_MAX_BITS),
        c.app.window_position == WindowPosition::Fixed ==> c.app.window_x is Some && c.app.window_y is Some,
        forall|i: int| 0 <= i < c.providers@.len() ==> {
            let p = #[trigger] c.providers@[i];
            &&& !is_blank(p.name@)
            &&& !is_blank(p.model@)
            &&& !is_blank(p.base_url@)
            &&& contains_seq(joined_prompts(p), "{target_language}"@)
            &&& contains_seq(joined_prompts(p), "{text}"@)
            &&& f32_bits_within(p.temperature_bits, 0, TEMPERATURE_MAX_BITS)
            &&& p.max_output_tokens > 0
            &&& p.request_timeout_seconds > 0
            &&& forall|k: int| 0 <= k < p.extra_params@.len() ==> !is_reserved_param(p.api_format, (#[trigger] p.extra_params@[k]).0@)
        },
        forall|i: int, j: int| 0 <= i < j < c.providers@.len() ==> normalized_name(#[trigger] c.providers@[i].name@) != normalized_name(#[trigger] c.providers@[j].name@),
{
    assert forall|i: int| 0 <= i < c.providers@.len() implies {
        let p = #[trigger] c.providers@[i];
        &&& !is_blank(p.name@)
        &&& !is_blank(p.model@)
        &&& !is_blank(p.base_url@)
        &&& contains_seq(joined_prompts(p), "{target_language}"@)
        &&& contains_seq(joined_prompts(p), "{text}"@)
        &&& f32_bits_within(p.temperature_bits, 0, TEMPERATURE_MAX_BITS)
        &&& p.max_output_tokens > 0
        &&& p.request_timeout_seconds > 0
        &&& forall|k: int| 0 <= k < p.extra_params@.len() ==> !is_reserved_param(p.api_format, (#[trigger] p.extra_params@[k]).0@)
    } by {
        lemma_providers_pass(c, 0, i);
        crate::translator::lemma_no_reserved(c.providers@[i].api_format, c.providers@[i].extra_params@, 0);
    }
    assert forall|i: int, j: int| 0 <= i < j < c.providers@.len() implies normalized_name(#[trigger] c.providers@[i].name@) != normalized_name(#[trigger] c.providers@[j].name@) by {
        lemma_providers_pass(c, 0, j);
    }
}

/// `Ok(())` for no error, the error otherwise.
pub open spec fn outcome(e: Option<ConfigError>) -> Result<(), ConfigError> {
    match e {
        Some(x) => Err(x),
        None => Ok(()),
    }
}

/// Whether `key` names a request field that the extra parameters of a
/// provider in format `format` may not set.
pub fn reserved_param(format: ApiFormat, key: &[char]) -> (r: bool)
    ensures
        r == is_reserved_param(format, key@),
{
    let common = seq_eq(key, &chars_of("model")) || seq_eq(key, &chars_of("temperature"))
        || seq_eq(key, &chars_of("stream"));
    if common {
        return true;
    }
    match format {
        ApiFormat::Responses => seq_eq(key, &chars_of("instructions")) || seq_eq(
            key,
            &chars_of("input"),
        ) || seq_eq(key, &chars_of("max_output_tokens")),
        ApiFormat::ChatCompletions => seq_eq(key, &chars_of("messages")) || seq_eq(
            key,
            &chars_of("max_completion_tokens"),
        ) || seq_eq(key, &chars_of("max_tokens")),
        ApiFormat::Completions => seq_eq(key, &chars_of("prompt")) || seq_eq(
            key,
            &chars_of("max_tokens"),
        ),
    }
}

/// Index of the first extra parameter of `provider` whose key is reserved.
pub fn first_reserved_param(provider: &ProviderConfig) -> (r: Option<usize>)
    ensures
        match r {
            Some(k) => first_reserved_from(provider.api_format, provider.extra_params@, 0) == Some(
                k as int,
            ),
            None => first_reserved_from(provider.api_format, provider.extra_params@, 0) is None,
        },
{
    let n = provider.extra_params.len();
    let mut k: usize = 0;
    while k < n
        invariant
            k <= n,
            n == provider.extra_params@.len(),
            first_reserved_from(provider.api_format, provider.extra_params@, 0)
                == first_reserved_from(provider.api_format, provider.extra_params@, k as int),
        decreases n - k,
    {
        let key = chars_of(provider.extra_params[k].0.as_str());
        if reserved_param(provider.api_format, &key) {
            return Some(k);
        }
        k = k + 1;
    }
    None
}

impl Config {
    /// The first rule that provider `i` breaks, given the normalized names of
    /// the providers before it.
    fn provider_check(&self, i: usize, seen: &Vec<Vec<char>>) -> (r: Option<ConfigError>)
        requires
            i < self.providers@.len(),
            seen@.len() == i,
            forall|j: int| 0 <= j < i ==> (#[trigger] seen@[j])@ == normalized_name(self.providers@[j].name@),
        ensures
            r == provider_error(*self, i as int),
    {
        let p = &self.providers[i];
        let name = chars_of(p.name.as_str());
        if blank(&name) {
            return Some(ConfigError::BlankProviderName { provider: i });
        }
        let norm = lowercase(&trim(&name));
        let mut j: usize = 0;
        while j < i
            invariant
                j <= i,
                i < self.providers@.len(),
                seen@.len() == i,
                norm@ == normalized_name(self.providers@[i as int].name@),
                !is_blank(self.providers@[i as int].name@),
                forall|m: int| 0 <= m < i ==> (#[trigger] seen@[m])@ == normalized_name(self.providers@[m].name@),
                forall|m: int| 0 <= m < j ==> normalized_name(#[trigger] self.providers@[m].name@) != norm@,
            decreases i - j,
        {
            if seq_eq(seen[j].as_slice(), &norm) {
                assert(normalized_name(self.providers@[j as int].name@) == norm@);
                return Some(ConfigError::DuplicateProviderName { provider: i });
            }
            j = j + 1;
        }
        if blank(&chars_of(p.model.as_str())) {
            return Some(ConfigError::BlankModel { provider: i });
        }
        if blank(&chars_of(p.base_url.as_str())) {
            return Some(ConfigError::BlankBaseUrl { provider: i });
        }
        let mut prompts = chars_of(p.system_prompt.as_str());
        prompts.push('\n');
        let mut user = chars_of(p.user_prompt.as_str());
        prompts.append(&mut user);
        assert(prompts@ =~= joined_prompts(*p));
        if !contains(&prompts, &chars_of("{target_language}")) || !contains(
            &prompts,
            &chars_of("{text}"),
        ) {
            return Some(ConfigError::MissingPlaceholders { provider: i });
        }
        if !f32_within(p.temperature_bits, 0, TEMPERATURE_MAX_BITS) {
            return Some(ConfigError::TemperatureOutOfRange { provider: i });
        }
        if p.max_output_tokens == 0 || p.request_timeout_seconds == 0 {
            return Some(ConfigError::ZeroLimit { provider: i });
        }
        match first_reserved_param(p) {
            Some(k) => Some(ConfigError::ReservedExtraParam { provider: i, param: k }),
            None => None,
        }
    }

    /// Whether some provider is named `name`.
    pub fn has_provider(&self, name: &str) -> (r: bool)
        ensures
            r == has_provider(*self, name@),
    {
        let n = self.providers.len();
        let mut i: usize = 0;
        while i < n
            invariant
                i <= n,
                n == self.providers@.len(),
                forall|j: int| 0 <= j < i ==> #[trigger] self.providers@[j].name@ != name@,
            decreases n - i,
        {
            if seq_eq(&chars_of(self.providers[i].name.as_str()), &chars_of(name)) {
                return true;
            }
            i = i + 1;
        }
        false
    }

    /// Checks the configuration, reporting the first rule it breaks.
    pub fn validate(&self) -> (r: Result<(), ConfigError>)
        ensures
            r == outcome(config_error(*self)),
    {
        let user = chars_of(self.user_language.as_str());
        let second = chars_of(self.second_language.as_str());
        if blank(&user) || blank(&second) {
            return Err(ConfigError::BlankLanguage);
        }
        if seq_eq(&lowercase(&user), &lowercase(&second)) {
            return Err(ConfigError::SameLanguages);
        }
        let n = self.providers.len();
        if n == 0 {
            return Err(ConfigError::NoProviders);
        }
        if n > MAX_PROVIDERS {
            return Err(ConfigError::TooManyProviders);
        }
        let mut seen: Vec<Vec<char>> = Vec::new();
        let mut i: usize = 0;
        while i < n
            invariant
                i <= n,
                n == self.providers@.len(),
                seen@.len() == i,
                forall|j: int| 0 <= j < i ==> (#[trigger] seen@[j])@ == normalized_name(self.providers@[j].name@),
                providers_error_from(*self, 0) == providers_error_from(*self, i as int),
                !is_blank(self.user_language@) && !is_blank(self.second_language@),
                lower_seq(self.user_language@) != lower_seq(self.second_language@),
                0 < n <= MAX_PROVIDERS,
            decreases n - i,
        {
            match self.provider_check(i, &seen) {
                Some(e) => {
                    return Err(e);
                },
                None => {},
            }
            let norm = lowercase(&trim(&chars_of(self.providers[i].name.as_str())));
            seen.push(norm);
            i = i + 1;
        }
        if !self.has_provider(self.active_provider.as_str()) {
            return Err(ConfigError::UnknownActiveProvider);
        }
        if self.app.cache_max_mb == 0 {
            return Err(ConfigError::ZeroCacheSize);
        }
        if self.app.window_width < MIN_WINDOW_WIDTH || self.app.window_height < MIN_WINDOW_HEIGHT {
            return Err(ConfigError::WindowTooSmall);
        }
        if !f32_within(self.app.input_ratio_bits, INPUT_RATIO_MIN_BITS, INPUT_RATIO_MAX_BITS) {
            return Err(ConfigError::InputRatioOutOfRange);
        }
        if self.app.window_position == WindowPosition::Fixed && (self.app.window_x.is_none()
            || self.app.window_y.is_none()) {
            return Err(ConfigError::FixedPositionWithoutCoordinates);
        }
        Ok(())
    }
}

/// Name for the text of `toml::Value::String(s)` as the `toml` crate writes it:
/// a TOML string literal that reads back as `s`.
pub uninterp spec fn toml_string_literal(s: Seq<char>) -> Seq<char>;

/// `toml::Value::String(s).to_string()`: `s` written as a TOML string.
#[verifier::external_body]
fn toml_string(s: &str) -> (r: String)
    ensures
        r@ == toml_string_literal(s@),
{
    toml::Value::String(s.to_owned()).to_string()
}

/// A line that, after its leading white space, begins with `key`.
pub open spec fn declares(line: Seq<char>, key: Seq<char>) -> bool {
    has_prefix(trim_start_seq(line), key)
}

/// Some line declares `key`.
pub open spec fn any_declares(ls: Seq<Seq<char>>, key: Seq<char>) -> bool {
    exists|i: int| 0 <= i < ls.len() && declares(#[trigger] ls[i], key)
}

/// The line that sets the active provider to the TOML text `value`.
pub open spec fn active_line(value: Seq<char>) -> Seq<char> {
    "active_provider = "@ + value
}

/// Lines written back with a line feed after each; the first line that
/// declares the active provider, unless `replaced`, becomes [`active_line`].
pub open spec fn rewrite_active(ls: Seq<Seq<char>>, value: Seq<char>, replaced: bool) -> Seq<char>
    decreases ls.len(),
{
    if ls.len() == 0 {
        Seq::empty()
    } else if !replaced && declares(ls[0], "active_provider ="@) {
        active_line(value) + seq!['\n'] + rewrite_active(ls.drop_first(), value, true)
    } else {
        ls[0] + seq!['\n'] + rewrite_active(ls.drop_first(), value, replaced)
    }
}

/// The configuration text `text` with the active provider set to the TOML
/// text `value`: the first declaring line is replaced, every other line is
/// kept; without such a line, the setting and a blank line go first.
pub open spec fn persisted_active_seq(text: Seq<char>, value: Seq<char>) -> Seq<char> {
    let ls = lines_seq(text);
    if any_declares(ls, "active_provider ="@) {
        rewrite_active(ls, value, false)
    } else {
        active_line(value) + seq!['\n', '\n'] + rewrite_active(ls, value, false)
    }
}

/// The line that sets the input ratio to the text `value`.
pub open spec fn ratio_line(value: Seq<char>) -> Seq<char> {
    "input_ratio = "@ + value
}

/// One line written back by the input-ratio edit.
pub open spec fn ratio_piece(l: Seq<char>, value: Seq<char>, has_value: bool) -> Seq<char> {
    if declares(l, "input_ratio ="@) {
        ratio_line(value) + seq!['\n']
    } else if !has_value && trim_seq(l) == "[app]"@ {
        l + seq!['\n'] + ratio_line(value) + seq!['\n']
    } else {
        l + seq!['\n']
    }
}

/// All lines written back by the input-ratio edit.
pub open spec fn ratio_pieces(ls: Seq<Seq<char>>, value: Seq<char>, has_value: bool) -> Seq<char>
    decreases ls.len(),
{
    if ls.len() == 0 {
        Seq::empty()
    } else {
        ratio_piece(ls[0], value, has_value) + ratio_pieces(ls.drop_first(), value, has_value)
    }
}

/// The configuration text `text` with the input ratio set to the text
/// `value`: every declaring line is replaced; without one, the setting is
/// added after each `[app]` line.
pub open spec fn persisted_ratio_seq(text: Seq<char>, value: Seq<char>) -> Seq<char> {
    let ls = lines_seq(text);
    ratio_pieces(ls, value, any_declares(ls, "input_ratio ="@))
}

/// Whether `line` declares `key`.
fn line_declares(line: &[char], key: &[char]) -> (r: bool)
    ensures
        r == declares(line@, key@),
{
    starts_with(&trim_start(line), key)
}

/// The configuration text with the active provider set to the TOML text
/// `value`.
pub fn persisted_active_provider(text: &str, value: &str) -> (r: String)
    ensures
        r@ == persisted_active_seq(text@, value@),
{
    let ls = lines(&chars_of(text));
    let key = chars_of("active_provider =");
    let mut decl = chars_of("active_provider = ");
    let mut v = chars_of(value);
    decl.append(&mut v);
    assert(decl@ =~= active_line(value@));
    let ghost all = views(ls@);
    let n = ls.len();
    let mut out: Vec<char> = Vec::new();
    let mut replaced = false;
    let mut i: usize = 0;
    assert(all.skip(0) =~= all);
    while i < n
        invariant
            i <= n,
            n == ls@.len(),
            all == views(ls@),
            all.len() == n,
            key@ == "active_provider ="@,
            decl@ == active_line(value@),
            replaced == exists|j: int| 0 <= j < i && declares(#[trigger] all[j], key@),
            rewrite_active(all, value@, false) == out@ + rewrite_active(all.skip(i as int), value@, replaced),
        decreases n - i,
    {
        let ghost rest = all.skip(i as int);
        assert(rest[0] == all[i as int]);
        assert(rest.drop_first() =~= all.skip(i + 1));
        let ghost before = out@;
        if !replaced && line_declares(ls[i].as_slice(), &key) {
            out.extend_from_slice(&decl);
            out.push('\n');
            replaced = true;
            assert(out@ =~= before + (active_line(value@) + seq!['\n']));
        } else {
            out.extend_from_slice(ls[i].as_slice());
            out.push('\n');
            assert(out@ =~= before + (all[i as int] + seq!['\n']));
            assert(replaced || !declares(all[i as int], key@));
        }
        i = i + 1;
    }
    assert(all.skip(n as int) =~= Seq::<Seq<char>>::empty());
    assert(out@ + Seq::<char>::empty() =~= out@);
    if replaced {
        string_of(&out)
    } else {
        let mut full = decl;
        full.push('\n');
        full.push('\n');
        let ghost head = full@;
        full.append(&mut out);
        assert(full@ =~= active_line(value@) + seq!['\n', '\n'] + rewrite_active(all, value@, false));
        string_of(&full)
    }
}

/// The configuration text with the input ratio set to the text `value`.
pub fn persisted_input_ratio(text: &str, value: &str) -> (r: String)
    ensures
        r@ == persisted_ratio_seq(text@, value@),
{
    let ls = lines(&chars_of(text));
    let key = chars_of("input_ratio =");
    let app = chars_of("[app]");
    let mut decl = chars_of("input_ratio = ");
    let mut v = chars_of(value);
    decl.append(&mut v);
    decl.push('\n');
    assert(decl@ =~= ratio_line(value@) + seq!['\n']);
    let ghost all = views(ls@);
    let n = ls.len();
    let mut has_value = false;
    let mut i: usize = 0;
    while i < n
        invariant
            i <= n,
            n == ls@.len(),
            all == views(ls@),
            key@ == "input_ratio ="@,
            has_value == exists|j: int| 0 <= j < i && declares(#[trigger] all[j], key@),
        decreases n - i,
    {
        assert(all[i as int] == ls@[i as int]@);
        if line_declares(ls[i].as_slice(), &key) {
            has_value = true;
        }
        i = i + 1;
    }
    assert(has_value == any_declares(all, "input_ratio ="@));
    let mut out: Vec<char> = Vec::new();
    let mut i: usize = 0;
    assert(all.skip(0) =~= all);
    while i < n
        invariant
            i <= n,
            n == ls@.len(),
            all == views(ls@),
            all.len() == n,
            key@ == "input_ratio ="@,
            app@ == "[app]"@,
            decl@ == ratio_line(value@) + seq!['\n'],
            ratio_pieces(all, value@, has_value) == out@ + ratio_pieces(all.skip(i as int), value@, has_value),
        decreases n - i,
    {
        let ghost rest = all.skip(i as int);
        assert(rest[0] == all[i as int]);
        assert(rest.drop_first() =~= all.skip(i + 1));
        let ghost before = out@;
        let line = ls[i].as_slice();
        if line_declares(line, &key) {
            out.extend_from_slice(&decl);
        } else {
            out.extend_from_slice(line);
            out.push('\n');
            if !has_value && seq_eq(&trim(line), &app) {
                out.extend_from_slice(&decl);
            }
        }
        assert(out@ =~= before + ratio_piece(all[i as int], value@, has_value));
        i = i + 1;
    }
    assert(all.skip(n as int) =~= Seq::<Seq<char>>::empty());
    assert(out@ + Seq::<char>::empty() =~= out@);
    string_of(&out)
}

/// Line `j` of `ls` is the first that declares `key`.
pub open spec fn first_declaring(ls: Seq<Seq<char>>, key: Seq<char>, j: int) -> bool {
    &&& 0 <= j < ls.len()
    &&& declares(ls[j], key)
    &&& forall|m: int| 0 <= m < j ==> !declares(#[trigger] ls[m], key)
}

/// Once the declaration is replaced, the remaining lines are written back
/// as they are.
proof fn lemma_rewrite_after_replacement(ls: Seq<Seq<char>>, value: Seq<char>)
    ensures
        rewrite_active(ls, value, true) == joined_lines(ls),
    decreases ls.len(),
{
    if ls.len() > 0 {
        lemma_rewrite_after_replacement(ls.drop_first(), value);
    }
}

/// The rewrite replaces the first declaring line and keeps the others.
proof fn lemma_rewrite_first_declaration(ls: Seq<Seq<char>>, value: Seq<char>, j: int)
    requires
        first_declaring(ls, "active_provider ="@, j),
    ensures
        rewrite_active(ls, value, false) == joined_lines(ls.update(j, active_line(value))),
    decreases j,
{
    let rest = ls.drop_first();
    let updated = ls.update(j, active_line(value));
    assert(updated.drop_first() =~= if j == 0 { rest } else { rest.update(j - 1, active_line(value)) });
    if j == 0 {
        lemma_rewrite_after_replacement(rest, value);
    } else {
        assert(!declares(ls[0], "active_provider ="@));
        assert forall|m: int| 0 <= m < j - 1 implies !declares(#[trigger] rest[m], "active_provider ="@) by {
            assert(rest[m] == ls[m + 1]);
        }
        assert(rest[j - 1] == ls[j]);
        lemma_rewrite_first_declaration(rest, value, j - 1);
    }
}

/// Without a declaring line, the rewrite keeps every line.
proof fn lemma_rewrite_without_declaration(ls: Seq<Seq<char>>, value: Seq<char>)
    requires
        !any_declares(ls, "active_provider ="@),
    ensures
        rewrite_active(ls, value, false) == joined_lines(ls),
    decreases ls.len(),
{
    if ls.len() > 0 {
        assert(!declares(ls[0], "active_provider ="@));
        let rest = ls.drop_first();
        assert(!any_declares(rest, "active_provider ="@)) by {
            if any_declares(rest, "active_provider ="@) {
                let i = choose|i: int| 0 <= i < rest.len() && declares(#[trigger] rest[i], "active_provider ="@);
                assert(rest[i] == ls[i + 1]);
            }
        }
        lemma_rewrite_without_declaration(rest, value);
    }
}

/// The lines of a configuration text, none ending in a carriage return, are
/// clean lines.
proof fn lemma_text_lines_clean(text: Seq<char>)
    requires
        forall|i: int| 0 <= i < lines_seq(text).len() ==> !(lines_seq(text)[i].len() > 0 && #[trigger] lines_seq(text)[i].last() == '\r'),
    ensures
        forall|i: int| 0 <= i < lines_seq(text).len() ==> clean_line(#[trigger] lines_seq(text)[i]),
{
    lemma_lines_have_no_lf(text);
    assert forall|i: int| 0 <= i < lines_seq(text).len() implies clean_line(#[trigger] lines_seq(text)[i]) by {
        assert(!lines_seq(text)[i].contains('\n'));
        assert(!(lines_seq(text)[i].len() > 0 && lines_seq(text)[i].last() == '\r'));
    }
}

/// Selecting a provider rewrites one line of the configuration text. Read
/// back, the text has the same lines, except that the first line declaring
/// `active_provider` now sets the new value; without such a line, the
/// setting and a blank line come first and every line follows unchanged.
/// This holds for texts none of whose lines ends in a carriage return, and
/// for a value without line feeds that does not end in one.
pub proof fn law_selection_rewrites_one_line(text: Seq<char>, value: Seq<char>)
    requires
        forall|i: int| 0 <= i < lines_seq(text).len() ==> !(lines_seq(text)[i].len() > 0 && #[trigger] lines_seq(text)[i].last() == '\r'),
        !value.contains('\n'),
        !(value.len() > 0 && value.last() == '\r'),
    ensures
        any_declares(lines_seq(text), "active_provider ="@) ==> {
            let ls = lines_seq(text);
            let out = lines_seq(persisted_active_seq(text, value));
            &&& out.len() == ls.len()
            &&& forall|j: int| 0 <= j < ls.len() ==> #[trigger] out[j] == if first_declaring(ls, "active_provider ="@, j) {
                active_line(value)
            } else {
                ls[j]
            }
        },
        !any_declares(lines_seq(text), "active_provider ="@) ==> lines_seq(persisted_active_seq(text, value))
            == seq![active_line(value), Seq::<char>::empty()] + lines_seq(text),
{
    reveal_strlit("active_provider = ");
    let key = "active_provider ="@;
    let ls = lines_seq(text);
    let a = active_line(value);
    lemma_text_lines_clean(text);
    assert(clean_line(a)) by {
        assert forall|m: int| 0 <= m < a.len() implies a[m] != '\n' by {
            if m >= 18 {
                assert(a[m] == value[m - 18]);
            }
        }
        if value.len() > 0 {
            assert(a.last() == value.last());
        }
    }
    if any_declares(ls, key) {
        let w = choose|i: int| 0 <= i < ls.len() && declares(#[trigger] ls[i], key);
        let j = first_index(ls, key, w);
        lemma_rewrite_first_declaration(ls, value, j);
        let updated = ls.update(j, a);
        assert forall|i: int| 0 <= i < updated.len() implies clean_line(#[trigger] updated[i]) by {
            if i != j {
                assert(updated[i] == ls[i]);
            }
        }
        lemma_lines_of_joined(updated);
        assert forall|i: int| 0 <= i < ls.len() implies #[trigger] updated[i] == if first_declaring(ls, key, i) {
            a
        } else {
            ls[i]
        } by {
            if i != j && first_declaring(ls, key, i) {
                if i < j {
                    assert(!declares(ls[i], key));
                } else {
                    assert(!declares(ls[j], key));
                }
            }
        }
    } else {
        lemma_rewrite_without_declaration(ls, value);
        let all = seq![a, Seq::<char>::empty()] + ls;
        assert forall|i: int| 0 <= i < all.len() implies clean_line(#[trigger] all[i]) by {
            if i >= 2 {
                assert(all[i] == ls[i - 2]);
            }
        }
        let tail = all.drop_first();
        assert(tail[0] == Seq::<char>::empty());
        assert(tail.drop_first() =~= ls);
        assert(joined_lines(tail) =~= Seq::<char>::empty() + seq!['\n'] + joined_lines(ls));
        assert(joined_lines(all) =~= a + seq!['\n'] + joined_lines(tail));
        assert(joined_lines(all) =~= a + seq!['\n', '\n'] + joined_lines(ls));
        lemma_lines_of_joined(all);
    }
}

/// The lines written back by the input-ratio edit of a text that declares
/// the ratio: each declaring line becomes the new setting.
pub open spec fn ratio_rewritten(ls: Seq<Seq<char>>, value: Seq<char>) -> Seq<Seq<char>> {
    Seq::new(ls.len(), |j: int| if declares(ls[j], "input_ratio ="@) { ratio_line(value) } else { ls[j] })
}

/// With a declaration present, the edit writes back [`ratio_rewritten`].
proof fn lemma_ratio_pieces_declared(ls: Seq<Seq<char>>, value: Seq<char>)
    ensures
        ratio_pieces(ls, value, true) == joined_lines(ratio_rewritten(ls, value)),
    decreases ls.len(),
{
    if ls.len() > 0 {
        let rest = ls.drop_first();
        lemma_ratio_pieces_declared(rest, value);
        let all = ratio_rewritten(ls, value);
        assert(all.drop_first() =~= ratio_rewritten(rest, value));
    }
}

/// The new setting line declares the ratio.
proof fn lemma_ratio_line_declares(value: Seq<char>)
    ensures
        declares(ratio_line(value), "input_ratio ="@),
{
    reveal_strlit("input_ratio = ");
    reveal_strlit("input_ratio =");
    let l = ratio_line(value);
    assert(l[0] == 'i');
    assert(trim_start_seq(l) == l);
    assert(l.subrange(0, 13) =~= "input_ratio ="@);
}

/// Setting the input ratio in a text that already declares it rewrites just
/// the declaring lines. Read back, each of them now sets the new value and
/// every other line is unchanged, so the lines that declared `input_ratio`
/// are exactly the ones that still do: no second declaration is added. This
/// holds for texts none of whose lines ends in a carriage return, and for a
/// value without line feeds that does not end in one.
pub proof fn law_ratio_rewrites_declarations(text: Seq<char>, value: Seq<char>)
    requires
        forall|i: int| 0 <= i < lines_seq(text).len() ==> !(lines_seq(text)[i].len() > 0 && #[trigger] lines_seq(text)[i].last() == '\r'),
        !value.contains('\n'),
        !(value.len() > 0 && value.last() == '\r'),
        any_declares(lines_seq(text), "input_ratio ="@),
    ensures
        ({
            let ls = lines_seq(text);
            let out = lines_seq(persisted_ratio_seq(text, value));
            &&& out.len() == ls.len()
            &&& forall|j: int| 0 <= j < ls.len() ==> #[trigger] out[j] == if declares(ls[j], "input_ratio ="@) {
                ratio_line(value)
            } else {
                ls[j]
            }
            &&& forall|j: int| 0 <= j < ls.len() ==> declares(#[trigger] out[j], "input_ratio ="@) == declares(ls[j], "input_ratio ="@)
        }),
{
    reveal_strlit("input_ratio = ");
    let ls = lines_seq(text);
    let l = ratio_line(value);
    lemma_text_lines_clean(text);
    assert(clean_line(l)) by {
        assert forall|m: int| 0 <= m < l.len() implies l[m] != '\n' by {
            if m >= 14 {
                assert(l[m] == value[m - 14]);
            }
        }
        if value.len() > 0 {
            assert(l.last() == value.last());
        }
    }
    lemma_ratio_pieces_declared(ls, value);
    let rewritten = ratio_rewritten(ls, value);
    assert forall|i: int| 0 <= i < rewritten.len() implies clean_line(#[trigger] rewritten[i]) by {}
    lemma_lines_of_joined(rewritten);
    lemma_ratio_line_declares(value);
}

/// The first line that declares `key`, at or before `w`.
proof fn first_index(ls: Seq<Seq<char>>, key: Seq<char>, w: int) -> (j: int)
    requires
        0 <= w < ls.len(),
        declares(ls[w], key),
    ensures
        first_declaring(ls, key, j),
        j <= w,
    decreases w,
{
    if exists|m: int| 0 <= m < w && declares(#[trigger] ls[m], key) {
        let m = choose|m: int| 0 <= m < w && declares(#[trigger] ls[m], key);
        first_index(ls, key, m)
    } else {
        w
    }
}

/// `i` is the first provider named `name`.
pub open spec fn first_named(c: Config, name: Seq<char>, i: int) -> bool {
    &&& 0 <= i < c.providers@.len()
    &&& c.providers@[i].name@ == name
    &&& forall|j: int| 0 <= j < i ==> #[trigger] c.providers@[j].name@ != name
}

/// `mb` mebibytes in bytes, saturating at `u64::MAX`.
pub open spec fn mebibytes(mb: u64) -> u64 {
    if mb * 1048576 > u64::MAX {
        u64::MAX
    } else {
        (mb * 1048576) as u64
    }
}

impl Config {
    /// The first provider named as the active one.
    pub fn active_provider(&self) -> (r: &ProviderConfig)
        requires
            has_provider(*self, self.active_provider@),
        ensures
            exists|i: int| first_named(*self, self.active_provider@, i) && *r == self.providers@[i],
    {
        let n = self.providers.len();
        let want = chars_of(self.active_provider.as_str());
        let mut i: usize = 0;
        while i < n
            invariant
                i <= n,
                n == self.providers@.len(),
                want@ == self.active_provider@,
                has_provider(*self, self.active_provider@),
                forall|j: int| 0 <= j < i ==> #[trigger] self.providers@[j].name@ != want@,
            decreases n - i,
        {
            if seq_eq(&chars_of(self.providers[i].name.as_str()), &want) {
                assert(first_named(*self, self.active_provider@, i as int));
                return &self.providers[i];
            }
            i = i + 1;
        }
        assert(false);
        &self.providers[0]
    }

    /// The cache budget in bytes: `cache_max_mb` mebibytes, saturating.
    pub fn cache_limit_bytes(&self) -> (r: u64)
        ensures
            r == mebibytes(self.app.cache_max_mb),
    {
        let mb = self.app.cache_max_mb;
        if mb > u64::MAX / 1048576 {
            assert(mb * 1048576 > u64::MAX) by (nonlinear_arith)
                requires
                    mb > u64::MAX / 1048576,
            ;
            u64::MAX
        } else {
            assert(mb * 1048576 <= u64::MAX) by (nonlinear_arith)
                requires
                    mb <= u64::MAX / 1048576,
            ;
            mb * 1048576
        }
    }

    /// Makes `name` the active provider. Returns the configuration text
    /// `config_text` with the selection written into it, to be saved; an
    /// unknown name is refused and nothing changes.
    pub fn select_provider(&mut self, name: &str, config_text: &str) -> (r: Result<String, ConfigError>)
        ensures
            !has_provider(*old(self), name@) ==> r == Err::<String, ConfigError>(ConfigError::UnknownProvider) && *final(self) == *old(self),
            has_provider(*old(self), name@) ==> {
                &&& r matches Ok(t) && t@ == persisted_active_seq(config_text@, toml_string_literal(name@))
                &&& final(self).active_provider@ == name@
                &&& final(self).user_language == old(self).user_language
                &&& final(self).second_language == old(self).second_language
                &&& final(self).providers == old(self).providers
                &&& final(self).app == old(self).app
            },
    {
        if !self.has_provider(name) {
            return Err(ConfigError::UnknownProvider);
        }
        let value = toml_string(name);
        let text = persisted_active_provider(config_text, value.as_str());
        self.active_provider = name.to_owned();
        Ok(text)
    }

    /// Sets the share of the popup given to the source text to the `f32` with
    /// bit pattern `ratio_bits`, written as `ratio_text`. Returns the
    /// configuration text `config_text` with the ratio written into it; a
    /// ratio outside 0.2 ..= 0.8 is refused and nothing changes.
    pub fn set_input_ratio(&mut self, ratio_bits: u32, ratio_text: &str, config_text: &str) -> (r: Result<String, ConfigError>)
        ensures
            !f32_bits_within(ratio_bits, INPUT_RATIO_MIN_BITS, INPUT_RATIO_MAX_BITS) ==> r == Err::<String, ConfigError>(ConfigError::RatioOutOfRange) && *final(self) == *old(self),
            f32_bits_within(ratio_bits, INPUT_RATIO_MIN_BITS, INPUT_RATIO_MAX_BITS) ==> {
                &&& r matches Ok(t) && t@ == persisted_ratio_seq(config_text@, ratio_text@)
                &&& final(self).app.input_ratio_bits == ratio_bits
                &&& final(self).app.hotkey == old(self).app.hotkey
                &&& final(self).app.cache_max_mb == old(self).app.cache_max_mb
                &&& final(self).app.window_width == old(self).app.window_width
                &&& final(self).app.window_height == old(self).app.window_height
                &&& final(self).app.window_position == old(self).app.window_position
                &&& final(self).app.window_x == old(self).app.window_x
                &&& final(self).app.window_y == old(self).app.window_y
                &&& final(self).app.always_on_top == old(self).app.always_on_top
                &&& final(self).app.autostart == old(self).app.autostart
                &&& final(self).active_provider == old(self).active_provider
                &&& final(self).user_language == old(self).user_language
                &&& final(self).second_language == old(self).second_language
                &&& final(self).providers == old(self).providers
            },
    {
        if !f32_within(ratio_bits, INPUT_RATIO_MIN_BITS, INPUT_RATIO_MAX_BITS) {
            return Err(ConfigError::RatioOutOfRange);
        }
        let text = persisted_input_ratio(config_text, ratio_text);
        self.app.input_ratio_bits = ratio_bits;
        Ok(text)
    }
}

impl AppConfig {
    /// The popup's top-left corner when its placement is fixed and both
    /// coordinates are set; otherwise the popup is placed by the system or
    /// near the mouse.
    pub fn fixed_corner(&self) -> (r: Option<(i32, i32)>)
        ensures
            r == (if self.window_position == WindowPosition::Fixed && self.window_x is Some
                && self.window_y is Some {
                Some((self.window_x->0, self.window_y->0))
            } else {
                None::<(i32, i32)>
            }),
    {
        match (self.window_position, self.window_x, self.window_y) {
            (WindowPosition::Fixed, Some(x), Some(y)) => Some((x, y)),
            _ => None,
        }
    }
}

/// Default API base URL.
pub fn default_base_url() -> (r: String)
    ensures
        r@ == "https://api.openai.com/v1"@,
{
    "https://api.openai.com/v1".to_owned()
}

/// Streaming is on unless a provider turns it off.
pub fn default_stream() -> (r: bool)
    ensures
        r,
{
    true
}

/// Default system prompt.
pub fn default_system_prompt() -> (r: String)
    ensures
        r@ == "Translate into {target_language}. Return only the translation."@,
{
    "Translate into {target_language}. Return only the translation.".to_owned()
}

/// Default user prompt: the source text alone.
pub fn default_user_prompt() -> (r: String)
    ensures
        r@ == "{text}"@,
{
    "{text}".to_owned()
}

/// Default output token limit.
pub fn default_max_tokens() -> (r: u32)
    ensures
        r == 2048,
{
    2048
}

/// Default request timeout in seconds.
pub fn default_request_timeout() -> (r: u64)
    ensures
        r == 60,
{
    60
}

/// Default global hotkey.
pub fn default_hotkey() -> (r: String)
    ensures
        r@ == "Alt+X"@,
{
    "Alt+X".to_owned()
}

/// Default cache budget in mebibytes.
pub fn default_cache_mb() -> (r: u64)
    ensures
        r == 10,
{
    10
}

/// Default popup width.
pub fn default_window_width() -> (r: i32)
    ensures
        r == 480,
{
    480
}

/// Default popup height.
pub fn default_window_height() -> (r: i32)
    ensures
        r == 520,
{
    520
}

/// Default popup placement.
pub fn default_window_position() -> (r: WindowPosition)
    ensures
        r == WindowPosition::Auto,
{
    WindowPosition::Auto
}

} // verus!
