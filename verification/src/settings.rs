//! Application settings: the stored settings row, the locale preference and
//! how it resolves to a supported locale, and the native texts in each locale.

use vstd::prelude::*;
use vstd::string::StrSliceExecFns;

use crate::strings::str_eq;

verus! {

broadcast use vstd::string::group_string_axioms;

/// The settings row of the local database.
#[derive(Debug, Clone)]
pub struct AppSettings {
    pub onboarding_done: bool,
    pub locale_preference: String,
}

/// The locale preference and the locale it resolves to, as announced to the
/// user interface.
#[derive(Debug, Clone)]
pub struct LocaleChanged {
    pub preference: String,
    pub locale: String,
}

/// The texts that native menus and dialogs show.
#[derive(Debug, Clone, Copy, PartialEq, Eq, Structural)]
pub enum NativeText {
    OpenControlPanel,
    Quit,
    OutdatedTitle,
    OutdatedMessage,
    CloseFriendolls,
    Images,
    OnboardingTitle,
    SceneTitle,
}

/// The preference that follows the operating system's locale.
pub open spec fn system_preference() -> Seq<char> {
    seq!['s', 'y', 's', 't', 'e', 'm']
}

/// The base locale, English.
pub open spec fn base_locale() -> Seq<char> {
    seq!['e', 'n']
}

/// Simplified Chinese, the other supported locale.
pub open spec fn chinese_locale() -> Seq<char> {
    seq!['z', 'h', '-', 'C', 'N']
}

/// The language part of Simplified Chinese.
pub open spec fn chinese_language() -> Seq<char> {
    seq!['z', 'h']
}

/// A character with `_` read as `-`.
pub open spec fn normalized(c: char) -> char {
    if c == '_' {
        '-'
    } else {
        c
    }
}

/// The code of a character with ASCII capitals folded to small letters.
pub open spec fn folded(c: char) -> u32 {
    if 'A' <= c <= 'Z' {
        (c as u32 + 32) as u32
    } else {
        c as u32
    }
}

/// Whether the first `n` characters of `requested`, with `_` read as `-`,
/// equal `locale` up to ASCII case.
pub open spec fn matches_ignoring_case(requested: Seq<char>, n: int, locale: Seq<char>) -> bool {
    &&& n == locale.len()
    &&& n <= requested.len()
    &&& forall|i: int| 0 <= i < n ==> folded(normalized(#[trigger] requested[i])) == folded(locale[i])
}

/// The length of the language part of `requested`: up to its first `-` or `_`.
pub open spec fn language_len(requested: Seq<char>) -> int
    decreases requested.len(),
{
    if requested.len() == 0 {
        0
    } else if normalized(requested[0]) == '-' {
        0
    } else {
        1 + language_len(requested.drop_first())
    }
}

/// The supported locale that a requested locale resolves to: an exact match
/// (ignoring case, with `_` read as `-`), else the first supported locale of
/// the same language, else English.
pub open spec fn resolved_locale(requested: Seq<char>) -> Seq<char> {
    let n = requested.len() as int;
    let lang = language_len(requested);
    if matches_ignoring_case(requested, n, base_locale()) {
        base_locale()
    } else if matches_ignoring_case(requested, n, chinese_locale()) {
        chinese_locale()
    } else if matches_ignoring_case(requested, lang, base_locale()) {
        base_locale()
    } else if matches_ignoring_case(requested, lang, chinese_language()) {
        chinese_locale()
    } else {
        base_locale()
    }
}

proof fn lemma_language_len(requested: Seq<char>)
    ensures
        0 <= language_len(requested) <= requested.len(),
        forall|i: int| 0 <= i < language_len(requested) ==> normalized(#[trigger] requested[i]) != '-',
        language_len(requested) < requested.len() ==> normalized(requested[language_len(requested)])
            == '-',
    decreases requested.len(),
{
    if requested.len() > 0 && normalized(requested[0]) != '-' {
        lemma_language_len(requested.drop_first());
        assert forall|i: int| 0 <= i < language_len(requested) implies normalized(
            #[trigger] requested[i],
        ) != '-' by {
            if i > 0 {
                assert(requested[i] == requested.drop_first()[i - 1]);
            }
        }
    }
}

/// Whether the first `n` characters of `requested` equal `locale`, ignoring
/// case and reading `_` as `-`.
fn prefix_matches(requested: &str, n: usize, locale: &str) -> (r: bool)
    requires
        n <= requested@.len(),
    ensures
        r == matches_ignoring_case(requested@, n as int, locale@),
{
    if n != locale.unicode_len() {
        return false;
    }
    let mut i: usize = 0;
    while i < n
        invariant
            n == locale@.len(),
            n <= requested@.len(),
            i <= n,
            forall|j: int| 0 <= j < i ==> folded(normalized(#[trigger] requested@[j])) == folded(
                locale@[j],
            ),
        decreases n - i,
    {
        let c = requested.get_char(i);
        let c = if c == '_' {
            '-'
        } else {
            c
        };
        let d = locale.get_char(i);
        let fc: u32 = if 'A' <= c && c <= 'Z' {
            (c as u32) + 32
        } else {
            c as u32
        };
        let fd: u32 = if 'A' <= d && d <= 'Z' {
            (d as u32) + 32
        } else {
            d as u32
        };
        if fc != fd {
            return false;
        }
        i = i + 1;
    }
    true
}

/// The length of the language part of `requested`.
fn language_length(requested: &str) -> (r: usize)
    ensures
        r == language_len(requested@),
{
    proof {
        lemma_language_len(requested@);
    }
    let n = requested.unicode_len();
    let mut i: usize = 0;
    while i < n
        invariant
            n == requested@.len(),
            i <= n,
            i <= language_len(requested@),
            0 <= language_len(requested@) <= requested@.len(),
            language_len(requested@) < requested@.len() ==> normalized(
                requested@[language_len(requested@)],
            ) == '-',
            forall|j: int| 0 <= j < language_len(requested@) ==> normalized(#[trigger] requested@[j]) != '-',
        decreases n - i,
    {
        let c = requested.get_char(i);
        if c == '-' || c == '_' {
            return i;
        }
        i = i + 1;
    }
    i
}

/// The supported locale that `requested` resolves to; no request resolves to
/// English.
pub fn resolve_locale(requested: Option<&str>) -> (r: String)
    ensures
        r@ == resolved_locale(
            match requested {
                Some(s) => s@,
                None => Seq::<char>::empty(),
            },
        ),
{
    let requested: &str = match requested {
        Some(s) => s,
        None => "",
    };
    proof {
        reveal_strlit("");
        reveal_strlit("en");
        reveal_strlit("zh-CN");
        reveal_strlit("zh");
        assert("en"@ =~= base_locale());
        assert("zh-CN"@ =~= chinese_locale());
        assert("zh"@ =~= chinese_language());
    }
    let n = requested.unicode_len();
    if prefix_matches(requested, n, "en") {
        return "en".to_owned();
    }
    if prefix_matches(requested, n, "zh-CN") {
        return "zh-CN".to_owned();
    }
    let lang = language_length(requested);
    proof {
        lemma_language_len(requested@);
    }
    if prefix_matches(requested, lang, "en") {
        return "en".to_owned();
    }
    if prefix_matches(requested, lang, "zh") {
        return "zh-CN".to_owned();
    }
    "en".to_owned()
}

/// Whether `preference` may be stored: the system preference or a supported
/// locale, spelled exactly.
pub open spec fn supported_preference(preference: Seq<char>) -> bool {
    preference == system_preference() || preference == base_locale() || preference
        == chinese_locale()
}

/// Whether `preference` may be stored.
pub fn is_supported_preference(preference: &str) -> (r: bool)
    ensures
        r == supported_preference(preference@),
{
    proof {
        reveal_strlit("system");
        reveal_strlit("en");
        reveal_strlit("zh-CN");
        assert("system"@ =~= system_preference());
        assert("en"@ =~= base_locale());
        assert("zh-CN"@ =~= chinese_locale());
    }
    str_eq(preference, "system") || str_eq(preference, "en") || str_eq(preference, "zh-CN")
}

/// Accepts a preference the user chose, or answers why not.
pub fn check_locale_preference(preference: &str) -> (r: Result<(), String>)
    ensures
        r is Ok <==> supported_preference(preference@),
        r matches Err(e) ==> e@ == "Unsupported locale preference"@,
{
    if is_supported_preference(preference) {
        Ok(())
    } else {
        Err("Unsupported locale preference".to_owned())
    }
}

/// The locale that a preference resolves to, given the operating system's
/// locale, if it reports one.
pub open spec fn preference_locale(preference: Seq<char>, system_locale: Option<Seq<char>>) -> Seq<
    char,
> {
    if preference == system_preference() {
        resolved_locale(
            match system_locale {
                Some(s) => s,
                None => Seq::<char>::empty(),
            },
        )
    } else {
        resolved_locale(preference)
    }
}

/// The announcement for a preference, given the operating system's locale.
pub fn locale_settings(preference: &str, system_locale: Option<&str>) -> (r: LocaleChanged)
    ensures
        r.preference@ == preference@,
        r.locale@ == preference_locale(
            preference@,
            match system_locale {
                Some(s) => Some(s@),
                None => None,
            },
        ),
{
    proof {
        reveal_strlit("system");
        assert("system"@ =~= system_preference());
    }
    let locale = if str_eq(preference, "system") {
        resolve_locale(system_locale)
    } else {
        resolve_locale(Some(preference))
    };
    LocaleChanged { preference: preference.to_owned(), locale }
}

/// The locale settings in force.
pub struct SettingsState {
    locale: LocaleChanged,
}

impl SettingsState {
    /// The preference in force and the locale it resolved to.
    pub closed spec fn preference(&self) -> Seq<char> {
        self.locale.preference@
    }

    /// The locale in force.
    pub closed spec fn locale(&self) -> Seq<char> {
        self.locale.locale@
    }

    /// Settings that follow `settings`.
    pub fn new(settings: LocaleChanged) -> (r: SettingsState)
        ensures
            r.preference() == settings.preference@,
            r.locale() == settings.locale@,
    {
        SettingsState { locale: settings }
    }

    /// A copy of the settings in force.
    pub fn current(&self) -> (r: LocaleChanged)
        ensures
            r.preference@ == self.preference(),
            r.locale@ == self.locale(),
    {
        LocaleChanged {
            preference: self.locale.preference.clone(),
            locale: self.locale.locale.clone(),
        }
    }

    /// Puts `next` in force.
    pub fn replace(&mut self, next: LocaleChanged)
        ensures
            final(self).preference() == next.preference@,
            final(self).locale() == next.locale@,
    {
        self.locale = next;
    }

    /// The native text `key` in the locale in force.
    pub fn text(&self, key: NativeText) -> (r: &'static str)
        ensures
            r@ == localized(self.locale(), key),
    {
        localized_text(self.locale.locale.as_str(), key)
    }
}

/// The English native texts.
pub open spec fn english_text(key: NativeText) -> Seq<char> {
    match key {
        NativeText::OpenControlPanel => "Open Control Panel"@,
        NativeText::Quit => "Quit"@,
        NativeText::OutdatedTitle => "Friendolls is out of date"@,
        NativeText::OutdatedMessage => "Your on-device data was created by a newer version of Friendolls and cannot be opened safely by this version.\n\nDownload and install the latest version of Friendolls, then reopen the app. Your data has not been changed."@,
        NativeText::CloseFriendolls => "Close Friendolls"@,
        NativeText::Images => "Images"@,
        NativeText::OnboardingTitle => "Friendolls Setup"@,
        NativeText::SceneTitle => "Scene"@,
    }
}

/// The Simplified Chinese native texts.
pub open spec fn chinese_text(key: NativeText) -> Seq<char> {
    match key {
        NativeText::OpenControlPanel => "打开控制面板"@,
        NativeText::Quit => "退出"@,
        NativeText::OutdatedTitle => "Friendolls 版本过旧"@,
        NativeText::OutdatedMessage => "此设备上的数据由较新版本的 Friendolls 创建，当前版本无法安全地打开这些数据。\n\n请下载并安装最新版 Friendolls，然后重新打开应用。你的数据未被更改。"@,
        NativeText::CloseFriendolls => "关闭 Friendolls"@,
        NativeText::Images => "图片"@,
        NativeText::OnboardingTitle => "Friendolls 安装向导"@,
        NativeText::SceneTitle => "场景"@,
    }
}

/// The native text `key` in `locale`: Simplified Chinese for `zh-CN`,
/// English otherwise.
pub open spec fn localized(locale: Seq<char>, key: NativeText) -> Seq<char> {
    if locale == chinese_locale() {
        chinese_text(key)
    } else {
        english_text(key)
    }
}

/// The native text `key` in `locale`.
pub fn localized_text(locale: &str, key: NativeText) -> (r: &'static str)
    ensures
        r@ == localized(locale@, key),
{
    proof {
        reveal_strlit("zh-CN");
        assert("zh-CN"@ =~= chinese_locale());
    }
    if str_eq(locale, "zh-CN") {
        match key {
            NativeText::OpenControlPanel => "打开控制面板",
            NativeText::Quit => "退出",
            NativeText::OutdatedTitle => "Friendolls 版本过旧",
            NativeText::OutdatedMessage => "此设备上的数据由较新版本的 Friendolls 创建，当前版本无法安全地打开这些数据。\n\n请下载并安装最新版 Friendolls，然后重新打开应用。你的数据未被更改。",
            NativeText::CloseFriendolls => "关闭 Friendolls",
            NativeText::Images => "图片",
            NativeText::OnboardingTitle => "Friendolls 安装向导",
            NativeText::SceneTitle => "场景",
        }
    } else {
        match key {
            NativeText::OpenControlPanel => "Open Control Panel",
            NativeText::Quit => "Quit",
            NativeText::OutdatedTitle => "Friendolls is out of date",
            NativeText::OutdatedMessage => "Your on-device data was created by a newer version of Friendolls and cannot be opened safely by this version.\n\nDownload and install the latest version of Friendolls, then reopen the app. Your data has not been changed.",
            NativeText::CloseFriendolls => "Close Friendolls",
            NativeText::Images => "Images",
            NativeText::OnboardingTitle => "Friendolls Setup",
            NativeText::SceneTitle => "Scene",
        }
    }
}

/// Every request resolves to a supported locale: English or Simplified
/// Chinese.
pub proof fn law_every_locale_resolves_to_a_supported_one(requested: Seq<char>)
    ensures
        resolved_locale(requested) == base_locale() || resolved_locale(requested) == chinese_locale(),
        supported_preference(resolved_locale(requested)),
{
}

} // verus!
