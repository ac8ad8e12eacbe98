use vstd::prelude::*;

verus! {

/// The languages the interface speaks.
#[derive(Clone, Copy, Debug, PartialEq, Eq, Structural)]
pub enum Locale {
    English,
    Chinese,
    Spanish,
    Arabic,
    Indonesian,
    PortugueseBr,
    PortuguesePt,
    French,
    Japanese,
    Russian,
    German,
    Icelandic,
    IcelandicRunic,
    Swedish,
    Korean,
}

impl Locale {
    /// The interface speaks English unless told otherwise.
    pub fn default() -> (l: Locale)
        ensures
            l == Locale::English,
    {
        Locale::English
    }

    /// The language tag of the locale.
    pub open spec fn spec_txt(self) -> Seq<char> {
        match self {
            Locale::English => "en-US"@,
            Locale::Chinese => "zh-CN"@,
            Locale::Spanish => "es"@,
            Locale::Arabic => "ar"@,
            Locale::Indonesian => "id"@,
            Locale::PortugueseBr => "pt-BR"@,
            Locale::PortuguesePt => "pt-PT"@,
            Locale::French => "fr"@,
            Locale::Japanese => "ja"@,
            Locale::Russian => "ru"@,
            Locale::German => "de"@,
            Locale::Icelandic => "is-IS"@,
            Locale::IcelandicRunic => "is-RU"@,
            Locale::Swedish => "sv-SE"@,
            Locale::Korean => "ko"@,
        }
    }

    /// The language tag of the locale, such as `en-US`.
    pub fn txt(self) -> (s: String)
        ensures
            s@ == self.spec_txt(),
    {
        match self {
            Locale::English => "en-US".to_string(),
            Locale::Chinese => "zh-CN".to_string(),
            Locale::Spanish => "es".to_string(),
            Locale::Arabic => "ar".to_string(),
            Locale::Indonesian => "id".to_string(),
            Locale::PortugueseBr => "pt-BR".to_string(),
            Locale::PortuguesePt => "pt-PT".to_string(),
            Locale::French => "fr".to_string(),
            Locale::Japanese => "ja".to_string(),
            Locale::Russian => "ru".to_string(),
            Locale::German => "de".to_string(),
            Locale::Icelandic => "is-IS".to_string(),
            Locale::IcelandicRunic => "is-RU".to_string(),
            Locale::Swedish => "sv-SE".to_string(),
            Locale::Korean => "ko".to_string(),
        }
    }

    /// The name of the language, in itself.
    pub open spec fn spec_name(self) -> Seq<char> {
        match self {
            Locale::English => "English (United States)"@,
            Locale::Chinese => "中文 (中国)"@,
            Locale::Spanish => "Español"@,
            Locale::Arabic => "العربية"@,
            Locale::Indonesian => "bahasa Indonesia"@,
            Locale::PortugueseBr => "Português (Brasil)"@,
            Locale::PortuguesePt => "Português (Portugal)"@,
            Locale::French => "Français"@,
            Locale::Japanese => "日本人"@,
            Locale::Russian => "Русский"@,
            Locale::German => "Deutsch"@,
            Locale::Icelandic => "Íslenska"@,
            Locale::IcelandicRunic => "ᛇᛋᛚᛂᚿᛋᚴᛁ ᚱᚤᛐᚢᚱᛁᚿᚿ (Íslenska Rúturinn)"@,
            Locale::Swedish => "Svenska"@,
            Locale::Korean => "한국인"@,
        }
    }

    /// The name of the language, in itself, as the language menu shows it.
    pub fn to_string(&self) -> (s: String)
        ensures
            s@ == self.spec_name(),
    {
        match self {
            Locale::English => "English (United States)".to_string(),
            Locale::Chinese => "中文 (中国)".to_string(),
            Locale::Spanish => "Español".to_string(),
            Locale::Arabic => "العربية".to_string(),
            Locale::Indonesian => "bahasa Indonesia".to_string(),
            Locale::PortugueseBr => "Português (Brasil)".to_string(),
            Locale::PortuguesePt => "Português (Portugal)".to_string(),
            Locale::French => "Français".to_string(),
            Locale::Japanese => "日本人".to_string(),
            Locale::Russian => "Русский".to_string(),
            Locale::German => "Deutsch".to_string(),
            Locale::Icelandic => "Íslenska".to_string(),
            Locale::IcelandicRunic => "ᛇᛋᛚᛂᚿᛋᚴᛁ ᚱᚤᛐᚢᚱᛁᚿᚿ (Íslenska Rúturinn)".to_string(),
            Locale::Swedish => "Svenska".to_string(),
            Locale::Korean => "한국인".to_string(),
        }
    }
}

} // verus!
