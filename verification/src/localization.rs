//! The interface's language, Russian or English, and its strings: the shared catalogue (the same
//! words under the same button on every device), and what only the Linux app has.
use vstd::prelude::*;
use crate::chars::{
    chars_of, dec, extend_str, is_prefix, lit, lower_ascii, lowercase_ascii, push_decimal, replace_all, replace_chars,
    split, split_chars, starts_with, string_of, trim, trim_chars, trimmed,
};
use crate::plurals::{abs, form, spec_form, PluralForm};

verus! {

#[derive(Clone, Copy, Debug, PartialEq, Eq, Structural)]
pub enum Lang {
    Ru,
    En,
}

/// The language a code names: "ru…" Russian, "en…" English, in any case, between blanks.
pub open spec fn lang_of(code: Seq<char>) -> Option<Lang> {
    let c = lower_ascii(trim(code));
    if is_prefix("ru"@, c) {
        Some(Lang::Ru)
    } else if is_prefix("en"@, c) {
        Some(Lang::En)
    } else {
        None
    }
}

impl Lang {
    /// The language a code names: "ru_RU.UTF-8" Russian, "en" English; anything else `None`.
    pub fn parse(code: &str) -> (r: Option<Lang>)
        ensures
            r == lang_of(code@),
    {
        let c = lowercase_ascii(&trimmed(code));
        if starts_with(&c, &lit("ru")) {
            Some(Lang::Ru)
        } else if starts_with(&c, &lit("en")) {
            Some(Lang::En)
        } else {
            None
        }
    }
}

/// Strings of the Linux app alone (key, Russian, English); their keys start with `Linux`, so as
/// not to be taken for shared ones.
pub const LINUX_ONLY: [(&'static str, &'static str, &'static str); 19] = [
    ("LinuxMainMenu", "Главное меню", "Main Menu"),
    ("LinuxAppLanguage", "Язык приложения", "App language"),
    ("LinuxLanguageRestart", "Язык сменится после перезапуска Melogold", "The language changes after Melogold restarts"),
    ("LinuxAbout", "О Melogold", "About Melogold"),
    ("LinuxAboutComments", "Музыка из YouTube Music и YouTube с общей библиотекой на всех устройствах", "Music from YouTube Music and YouTube with one library on all your devices"),
    ("LinuxShowSidebar", "Показать разделы", "Show Sections"),
    ("LinuxShortcutsDescription", "Все клавиши приложения · F1 или Ctrl+?", "All keys of the app · F1 or Ctrl+?"),
    ("LinuxCloseWindow", "Закрыть окно", "Close window"),
    ("LinuxQuit", "Выйти", "Quit"),
    ("LinuxPrimaryMenuShortcut", "Главное меню", "Main menu"),
    ("LinuxVersions", "Версии", "Versions"),
    ("LinuxSystem", "Система", "System"),
    ("LinuxLogs", "Журналы", "Logs"),
    ("LinuxLogsFolder", "Папка журналов", "Logs folder"),
    ("LinuxSectionSoonTrends", "В тренде и настроения появятся в следующем срезе", "Trending and moods are coming next"),
    ("LinuxSectionSoonNew", "Новые релизы и «Для вас» появятся позже", "New releases and For you are coming later"),
    ("LinuxSectionSoonLibrary", "Избранное, плейлисты и история появятся позже", "Favorites, playlists and history are coming later"),
    ("LinuxServerLinkOpened", "Ссылка на сервер: {0}. Вход появится вместе с аккаунтом", "Server link: {0}. Sign-in comes with accounts"),
    ("LinuxLinkRequest", "Откройте Melogold на другом устройстве → Добавить устройство → Сканировать", "Open Melogold on the other device → Add a device → Scan"),
];

/// The shared catalogue (key, Russian, English), sorted by key.
pub const STRINGS: [(&'static str, &'static str, &'static str); 75] = [
    ("Back", "Назад", "Back"),
    ("Diagnostics", "Диагностика", "Diagnostics"),
    ("GeoOtherCountries_few", "{0} других странах", "{0} other countries"),
    ("GeoOtherCountries_many", "{0} других странах", "{0} other countries"),
    ("GeoOtherCountries_one", "{0} другой стране", "{0} other country"),
    ("GeoOtherCountries_other", "{0} других странах", "{0} other countries"),
    ("LibraryHeader", "Библиотека", "Library"),
    ("LinkUnsupported", "Такие ссылки Melogold пока не открывает", "Melogold does not open such links yet"),
    ("LinuxSkip", "Пропустить", "Skip"),
    ("MenuCopyLink", "Копировать ссылку", "Copy link"),
    ("MenuOtherVersions", "Другие версии", "Other versions"),
    ("MenuRemoveFromQueue", "Убрать из очереди", "Remove from queue"),
    ("MenuShortcuts", "Клавиши", "Keyboard shortcuts"),
    ("MenuStreamInfo", "О потоке", "Stream info"),
    ("MenuTrackRadio", "Радио по треку", "Track radio"),
    ("NavLibrary.Content", "Библиотека", "Library"),
    ("NavNew.Content", "Новое", "New"),
    ("NavSettings", "Настройки", "Settings"),
    ("NavTrends.Content", "В тренде", "Trending"),
    ("NewHeader", "Новое", "New"),
    ("Next", "Следующий", "Next"),
    ("NowPlaying", "Сейчас играет", "Now playing"),
    ("OpenLogs.Content", "Открыть журналы", "Open logs"),
    ("Play", "Слушать", "Play"),
    ("PlayErrorAge", "Только для взрослых: YouTube просит войти", "Age-restricted: YouTube asks to sign in"),
    ("PlayErrorBot", "YouTube принял запрос за бота", "YouTube took the request for a bot"),
    ("PlayErrorExtractor", "YouTube изменил формат потока", "YouTube changed the stream format"),
    ("PlayErrorGeo", "Недоступно в вашей стране", "Unavailable in your country"),
    ("PlayErrorGeoCountryFormat", "Недоступно в стране «{0}»: YouTube считает, что вы там, а правообладатель закрыл трек для этой страны. С VPN выберите сервер другой страны: некоторые серверы YouTube тоже относит к стране «{0}».", "Unavailable in {0}: YouTube places you there, and the rights holder closed this track for it. With a VPN, pick a server in another country: YouTube counts some VPN servers as {0} too."),
    ("PlayErrorGeoCountryNoticeFormat", "Недоступно в стране «{0}»", "Unavailable in {0}"),
    ("PlayErrorGeoCountryOpenFormat", "Недоступно в стране «{0}»: YouTube считает, что вы там, а правообладатель открыл трек в {1}. С VPN выберите сервер другой страны: некоторые серверы YouTube тоже относит к стране «{0}».", "Unavailable in {0}: YouTube places you there, and the rights holder opened this track in {1}. With a VPN, pick a server in another country: YouTube counts some VPN servers as {0} too."),
    ("PlayErrorGeoCountryShortFormat", "Недоступно: {0}", "Unavailable: {0}"),
    ("PlayErrorNetwork", "Нет связи с YouTube", "No connection to YouTube"),
    ("PlayErrorUnavailable", "Видео недоступно", "Video unavailable"),
    ("Previous", "Предыдущий", "Previous"),
    ("QueueClear", "Очистить очередь", "Clear queue"),
    ("QueueCleared", "Очередь очищена", "Queue cleared"),
    ("QueueSimilar", "Далее — похожие", "Up next: similar"),
    ("QueueTitle", "Очередь", "Queue"),
    ("RepeatAll", "Повторять всё", "Repeat all"),
    ("RepeatOff", "Без повтора", "Repeat off"),
    ("ResolvingText.Text", "Получаем поток…", "Getting the stream…"),
    ("ResultsNothing", "Ничего не нашлось", "Nothing found"),
    ("ResultsNothingInCatalog", "В каталоге YouTube Music ничего нет", "Nothing in the YouTube Music catalogue"),
    ("ResultsYouTube", "Искать на YouTube", "Search YouTube"),
    ("Retry", "Повторить", "Retry"),
    ("SearchBox.PlaceholderText", "Поиск", "Search"),
    ("SettingsAbout.Text", "О приложении", "About"),
    ("SettingsAppearance.Text", "Оформление", "Appearance"),
    ("SettingsDiagnostics.Description", "Журналы и сведения о системе", "Logs and system details"),
    ("SettingsDiagnostics.Header", "Диагностика", "Diagnostics"),
    ("SettingsReportBug.Description", "Расскажите, что пошло не так", "Tell us what went wrong"),
    ("SettingsReportBug.Header", "Сообщить об ошибке", "Report a bug"),
    ("SettingsRequestFeature.Description", "Чего не хватает в Melogold", "What Melogold is missing"),
    ("SettingsRequestFeature.Header", "Предложить идею", "Request a feature"),
    ("SettingsServer.Header", "Сервер", "Server"),
    ("SettingsShortcuts.Header", "Клавиши", "Keyboard shortcuts"),
    ("SettingsSource.Description", "Код приложения открыт", "The app's code is open"),
    ("SettingsSource.Header", "Исходный код", "Source code"),
    ("SettingsTheme.Header", "Тема", "Theme"),
    ("SettingsVersion.Header", "Версия", "Version"),
    ("SettingsWithoutAccount.Description", "Библиотека хранится на этом устройстве", "The library is kept on this device"),
    ("SettingsWithoutAccount.Header", "Без аккаунта", "Without an account"),
    ("ShortcutHelp", "Клавиши", "Keyboard shortcuts"),
    ("ShortcutSearch", "Поиск", "Search"),
    ("ShortcutSections", "Разделы", "Sections"),
    ("ShortcutSettings", "Настройки", "Settings"),
    ("ShortcutsGroupWindow", "Окно", "Window"),
    ("Shuffle", "Перемешать", "Shuffle"),
    ("SkippedFormat", "Пропущен «{0}»: {1}", "Skipped “{0}”: {1}"),
    ("ThemeDark.Content", "Тёмная", "Dark"),
    ("ThemeLight.Content", "Светлая", "Light"),
    ("ThemeSystem.Content", "Как в системе", "System"),
    ("TrendsHeader", "В тренде", "Trending"),
    ("VersionFormat", "Версия {0}", "Version {0}"),
];


/// The index of the first entry with `key`.
pub open spec fn find_entry(t: Seq<(&'static str, &'static str, &'static str)>, key: Seq<char>) -> Option<int>
    decreases t.len(),
{
    if t.len() == 0 {
        None
    } else {
        match find_entry(t.drop_last(), key) {
            Some(i) => Some(i),
            None => if t.last().0@ == key { Some(t.len() - 1) } else { None },
        }
    }
}

pub open spec fn pick(lang: Lang, ru: &'static str, en: &'static str) -> &'static str {
    if lang == Lang::Ru { ru } else { en }
}

/// A string by key: the Linux app's own first, then the shared catalogue's.
pub open spec fn lookup_spec(lang: Lang, key: Seq<char>) -> Option<&'static str> {
    match find_entry(LINUX_ONLY@, key) {
        Some(i) => Some(pick(lang, LINUX_ONLY@[i].1, LINUX_ONLY@[i].2)),
        None => match find_entry(STRINGS@, key) {
            Some(i) => Some(pick(lang, STRINGS@[i].1, STRINGS@[i].2)),
            None => None,
        },
    }
}

proof fn lemma_find_entry(t: Seq<(&'static str, &'static str, &'static str)>, key: Seq<char>)
    ensures
        find_entry(t, key) matches Some(i) ==> 0 <= i < t.len() && t[i].0@ == key,
    decreases t.len(),
{
    if t.len() > 0 {
        lemma_find_entry(t.drop_last(), key);
    }
}

fn find_in(t: &[(&'static str, &'static str, &'static str)], key: &Vec<char>) -> (r: Option<usize>)
    ensures
        match find_entry(t@, key@) {
            Some(i) => r == Some(i as usize),
            None => r is None,
        },
{
    let mut i: usize = 0;
    while i < t.len()
        invariant
            i <= t@.len(),
            find_entry(t@.take(i as int), key@) is None,
        decreases t.len() - i,
    {
        assert(t@.take(i + 1).drop_last() =~= t@.take(i as int));
        assert(t@.take(i + 1).last() == t@[i as int]);
        if crate::chars::chars_eq(&chars_of(t[i].0), key) {
            proof {
                lemma_find_prefix(t@, key@, i + 1);
            }
            return Some(i);
        }
        i = i + 1;
    }
    assert(t@.take(t@.len() as int) =~= t@);
    None
}

/// The first entry with a key in a prefix is the first in the whole table.
proof fn lemma_find_prefix(t: Seq<(&'static str, &'static str, &'static str)>, key: Seq<char>, n: int)
    requires
        0 < n <= t.len(),
        find_entry(t.take(n), key) is Some,
    ensures
        find_entry(t, key) == find_entry(t.take(n), key),
    decreases t.len() - n,
{
    if n < t.len() {
        assert(t.take(n + 1).drop_last() =~= t.take(n));
        lemma_find_prefix(t, key, n + 1);
    } else {
        assert(t.take(n) =~= t);
    }
}

/// A string by key, in `lang`; `None`: no such key.
pub fn lookup_in(lang: Lang, key: &str) -> (r: Option<&'static str>)
    ensures
        r == lookup_spec(lang, key@),
{
    let k = chars_of(key);
    proof {
        lemma_find_entry(LINUX_ONLY@, k@);
        lemma_find_entry(STRINGS@, k@);
    }
    match find_in(&LINUX_ONLY, &k) {
        Some(i) => return Some(if lang == Lang::Ru { LINUX_ONLY[i].1 } else { LINUX_ONLY[i].2 }),
        None => {},
    }
    match find_in(&STRINGS, &k) {
        Some(i) => Some(if lang == Lang::Ru { STRINGS[i].1 } else { STRINGS[i].2 }),
        None => None,
    }
}

/// A string by key, in `lang`; where there is no such key, the key itself.
pub fn tr(lang: Lang, key: &'static str) -> (r: &'static str)
    ensures
        r == match lookup_spec(lang, key@) {
            Some(s) => s,
            None => key,
        },
{
    match lookup_in(lang, key) {
        Some(s) => s,
        None => key,
    }
}

/// The placeholder of argument `i`: `{0}`, `{1}`, …
pub open spec fn placeholder(i: nat) -> Seq<char> {
    "{"@ + dec(i) + "}"@
}

/// A template with every `{i}` replaced by argument `i`, for each argument in turn.
pub open spec fn fill(template: Seq<char>, args: Seq<Seq<char>>) -> Seq<char>
    decreases args.len(),
{
    if args.len() == 0 {
        template
    } else {
        replace_all(fill(template, args.drop_last()), placeholder((args.len() - 1) as nat), args.last())
    }
}

/// A template with every `{i}` replaced by argument `i`, as `string.Format` does.
pub fn format_args_into(template: &str, args: &Vec<String>) -> (r: String)
    ensures
        r@ == fill(template@, args.deep_view()),
{
    let mut text = chars_of(template);
    let mut i: usize = 0;
    while i < args.len()
        invariant
            i <= args@.len(),
            text@ == fill(template@, args.deep_view().take(i as int)),
        decreases args.len() - i,
    {
        assert(args.deep_view().take(i + 1).drop_last() =~= args.deep_view().take(i as int));
        assert(args.deep_view().take(i + 1).last() == args@[i as int]@);
        let mut p = lit("{");
        push_decimal(&mut p, i as u64);
        extend_str(&mut p, "}");
        assert(p@ =~= placeholder(i as nat));
        text = replace_chars(&text, &p, &chars_of(args[i].as_str()));
        i = i + 1;
    }
    assert(args.deep_view().take(args@.len() as int) =~= args.deep_view());
    string_of(&text)
}

/// A string with arguments, in `lang`.
pub fn trf(lang: Lang, key: &'static str, args: &Vec<String>) -> (r: String)
    ensures
        r@ == fill(
            match lookup_spec(lang, key@) {
                Some(s) => s@,
                None => key@,
            },
            args.deep_view(),
        ),
{
    format_args_into(tr(lang, key), args)
}

/// The digits of `d` with `sep` before every group of three counted from the right.
pub open spec fn grouped(d: Seq<char>, sep: char, n: int) -> Seq<char>
    decreases n,
{
    if n <= 0 {
        Seq::empty()
    } else {
        let before = grouped(d, sep, n - 1);
        let index = n - 1;
        if index > 0 && (d.len() - index) % 3 == 0 { before.push(sep).push(d[index]) } else { before.push(d[index]) }
    }
}

/// The separator of thousands: a no-break space in Russian, a comma in English.
pub open spec fn thousands(lang: Lang) -> char {
    if lang == Lang::Ru { '\u{a0}' } else { ',' }
}

/// A count with thousands set apart: "12 345", "12,345"; a minus before a negative one.
pub open spec fn count_text(lang: Lang, count: int) -> Seq<char> {
    let d = dec(abs(count) as nat);
    let g = grouped(d, thousands(lang), d.len() as int);
    if count < 0 { seq!['-'] + g } else { g }
}

/// A count with thousands set apart: "12 345" (a no-break space) and "12,345".
pub fn format_count(lang: Lang, count: i64) -> (r: String)
    ensures
        r@ == count_text(lang, count as int),
{
    let n: u64 = if count < 0 { (0i128 - count as i128) as u64 } else { count as u64 };
    let mut digits: Vec<char> = Vec::new();
    push_decimal(&mut digits, n);
    assert(digits@ =~= dec(abs(count as int) as nat));
    let sep = if lang == Lang::Ru { '\u{a0}' } else { ',' };
    let mut out: Vec<char> = Vec::new();
    if count < 0 {
        out.push('-');
    }
    let ghost start = out@;
    let mut i: usize = 0;
    while i < digits.len()
        invariant
            i <= digits@.len(),
            out@ == start + grouped(digits@, sep, i as int),
        decreases digits.len() - i,
    {
        if i > 0 && (digits.len() - i) % 3 == 0 {
            out.push(sep);
        }
        out.push(digits[i]);
        assert(out@ =~= start + grouped(digits@, sep, i + 1));
        i = i + 1;
    }
    assert(start + grouped(digits@, sep, digits@.len() as int) =~= count_text(lang, count as int));
    string_of(&out)
}

/// "21 трек", "3 трека", "5 треков": the key with the form's suffix, `{0}` the count; a key with
/// no such string stands for itself.
pub open spec fn plural_text(lang: Lang, key: Seq<char>, count: int) -> Seq<char> {
    let suffix = match spec_form(abs(count), lang == Lang::Ru) {
        PluralForm::One => "one"@,
        PluralForm::Few => "few"@,
        PluralForm::Many => "many"@,
        PluralForm::Other => "other"@,
    };
    let template = match lookup_spec(lang, key + "_"@ + suffix) {
        Some(s) => s@,
        None => key,
    };
    fill(template, seq![count_text(lang, count)])
}

/// "21 трек", "3 трека", "5 треков": the key with the form's suffix, `{0}` the count.
pub fn plural(lang: Lang, key: &'static str, count: i64) -> (r: String)
    ensures
        r@ == plural_text(lang, key@, count as int),
{
    let f = form(count, lang == Lang::Ru);
    let mut full = chars_of(key);
    extend_str(&mut full, "_");
    extend_str(&mut full, f.suffix());
    let full = string_of(&full);
    let template: &str = match lookup_in(lang, full.as_str()) {
        Some(s) => s,
        None => key,
    };
    let mut args: Vec<String> = Vec::new();
    args.push(format_count(lang, count));
    assert(args.deep_view() =~= seq![count_text(lang, count as int)]);
    format_args_into(template, &args)
}

/// The first entry of a locale variable (`LANGUAGE` lists several, split by ':'), trimmed.
pub open spec fn first_locale(value: Seq<char>) -> Seq<char> {
    trim(split(value, ':')[0])
}

/// A locale that names no language: empty, "C", "POSIX", "C.…".
pub open spec fn is_neutral(first: Seq<char>) -> bool {
    first.len() == 0 || first == "C"@ || first == "POSIX"@ || is_prefix("C."@, first)
}

/// The language of the locale variables in gettext's order (`LANGUAGE`, `LC_ALL`,
/// `LC_MESSAGES`, `LANG`): the first that names a language decides, English where it names
/// another.
pub open spec fn lang_of_locale(vars: Seq<Option<Seq<char>>>) -> Lang
    decreases vars.len(),
{
    if vars.len() == 0 {
        Lang::En
    } else {
        match vars[0] {
            Some(v) => if is_neutral(first_locale(v)) {
                lang_of_locale(vars.drop_first())
            } else {
                match lang_of(first_locale(v)) {
                    Some(l) => l,
                    None => Lang::En,
                }
            },
            None => lang_of_locale(vars.drop_first()),
        }
    }
}

/// The process's language: `MELOGOLD_LANG` where it names one, else the locale variables.
pub open spec fn detect_spec(app_lang: Option<Seq<char>>, vars: Seq<Option<Seq<char>>>) -> Lang {
    match app_lang {
        Some(a) => match lang_of(a) {
            Some(l) => l,
            None => lang_of_locale(vars),
        },
        None => lang_of_locale(vars),
    }
}

/// The process's language from `MELOGOLD_LANG` and the locale variables (in gettext's order);
/// `None` stands for a variable that is not set.
pub fn detect_from(app_lang: Option<&str>, vars: &Vec<Option<String>>) -> (r: Lang)
    ensures
        r == detect_spec(
            match app_lang {
                Some(a) => Some(a@),
                None => None,
            },
            vars.deep_view(),
        ),
{
    match app_lang {
        Some(a) => match Lang::parse(a) {
            Some(l) => return l,
            None => {},
        },
        None => {},
    }
    let ghost vv = vars.deep_view();
    let ghost app_view = match app_lang {
        Some(a) => Some(a@),
        None => None,
    };
    assert(detect_spec(app_view, vv) == lang_of_locale(vv));
    let mut i: usize = 0;
    assert(vv.skip(0) =~= vv);
    while i < vars.len()
        invariant
            i <= vars@.len(),
            vv == vars.deep_view(),
            detect_spec(app_view, vv) == lang_of_locale(vv),
            app_view == match app_lang {
                Some(a) => Some(a@),
                None => None,
            },
            lang_of_locale(vv) == lang_of_locale(vv.skip(i as int)),
        decreases vars.len() - i,
    {
        assert(vv.skip(i as int)[0] == vv[i as int]);
        assert(vv.skip(i as int).drop_first() =~= vv.skip(i + 1));
        match &vars[i] {
            Some(value) => {
                let parts = split_chars(&chars_of(value.as_str()), ':');
                proof {
                    crate::chars::lemma_split_nonempty(value@, ':');
                }
                let first = trim_chars(&parts[0]);
                let neutral = first.len() == 0 || crate::chars::chars_eq(&first, &lit("C")) || crate::chars::chars_eq(
                    &first,
                    &lit("POSIX"),
                ) || starts_with(&first, &lit("C."));
                if !neutral {
                    assert(vv[i as int] == Some(value@));
                    assert(first@ == first_locale(value@));
                    assert(!is_neutral(first_locale(value@)));
                    assert(lang_of_locale(vv.skip(i as int)) == match lang_of(first_locale(value@)) {
                        Some(l) => l,
                        None => Lang::En,
                    });
                    return match Lang::parse(string_of(&first).as_str()) {
                        Some(l) => l,
                        None => Lang::En,
                    };
                }
            },
            None => {},
        }
        i = i + 1;
    }
    Lang::En
}


/// Whether the interface speaks Russian (which picks, among other things, Russian plural forms).
pub fn is_russian(lang: Lang) -> (r: bool)
    ensures
        r == (lang == Lang::Ru),
{
    match lang {
        Lang::Ru => true,
        Lang::En => false,
    }
}

} // verus!
