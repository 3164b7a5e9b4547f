use vstd::prelude::*;

verus! {

/// The source languages whose style defaults differ.
#[derive(Clone, Copy, PartialEq, Eq, Structural, Debug, Hash)]
pub enum Language {
    CSharp,
    Cpp,
    Java,
    JavaScript,
    ObjC,
    Proto,
    TableGen,
    TextProto,
}

/// A text that names no language.
#[derive(Debug)]
pub struct ParseLanguageError(());

/// The name of a language, as configurations write it.
pub open spec fn language_name(l: Language) -> Seq<char> {
    match l {
        Language::CSharp => "CSharp"@,
        Language::Cpp => "Cpp"@,
        Language::Java => "Java"@,
        Language::JavaScript => "JavaScript"@,
        Language::ObjC => "ObjC"@,
        Language::Proto => "Proto"@,
        Language::TableGen => "TableGen"@,
        Language::TextProto => "TextProto"@,
    }
}

/// The file extension that makes the formatter assume a language.
pub open spec fn language_extension(l: Language) -> Seq<char> {
    match l {
        Language::CSharp => ".cs"@,
        Language::Cpp => ".cpp"@,
        Language::Java => ".java"@,
        Language::JavaScript => ".js"@,
        Language::ObjC => ".m"@,
        Language::Proto => ".proto"@,
        Language::TableGen => ".td"@,
        Language::TextProto => ".textpb"@,
    }
}

impl Language {
    /// The name of the language, as configurations write it.
    pub fn get_name(self) -> (r: &'static str)
        ensures
            r@ == language_name(self),
    {
        match self {
            Language::CSharp => "CSharp",
            Language::Cpp => "Cpp",
            Language::Java => "Java",
            Language::JavaScript => "JavaScript",
            Language::ObjC => "ObjC",
            Language::Proto => "Proto",
            Language::TableGen => "TableGen",
            Language::TextProto => "TextProto",
        }
    }

    /// A file extension that makes the formatter assume the language.
    pub fn get_file_extension(self) -> (r: &'static str)
        ensures
            r@ == language_extension(self),
    {
        match self {
            Language::CSharp => ".cs",
            Language::Cpp => ".cpp",
            Language::Java => ".java",
            Language::JavaScript => ".js",
            Language::ObjC => ".m",
            Language::Proto => ".proto",
            Language::TableGen => ".td",
            Language::TextProto => ".textpb",
        }
    }

    /// The language with the name `s`; an error where no language has it.
    pub fn parse(s: &str) -> (r: Result<Language, ParseLanguageError>)
        ensures
            match r {
                Ok(l) => language_name(l) == s@,
                Err(_) => forall|l: Language| language_name(l) != s@,
            },
    {
        let all = [
            Language::CSharp,
            Language::Cpp,
            Language::Java,
            Language::JavaScript,
            Language::ObjC,
            Language::Proto,
            Language::TableGen,
            Language::TextProto,
        ];
        let text = s.to_owned();
        let mut i: usize = 0;
        while i < 8
            invariant
                0 <= i <= 8,
                text@ == s@,
                all@ == seq![
                    Language::CSharp,
                    Language::Cpp,
                    Language::Java,
                    Language::JavaScript,
                    Language::ObjC,
                    Language::Proto,
                    Language::TableGen,
                    Language::TextProto,
                ],
                forall|j: int| 0 <= j < i ==> language_name(#[trigger] all@[j]) != s@,
            decreases 8 - i,
        {
            let name = all[i].get_name().to_owned();
            if name == text {
                return Ok(all[i]);
            }
            i = i + 1;
        }
        assert forall|l: Language| language_name(l) != s@ by {
            match l {
                Language::CSharp => assert(language_name(all@[0]) != s@),
                Language::Cpp => assert(language_name(all@[1]) != s@),
                Language::Java => assert(language_name(all@[2]) != s@),
                Language::JavaScript => assert(language_name(all@[3]) != s@),
                Language::ObjC => assert(language_name(all@[4]) != s@),
                Language::Proto => assert(language_name(all@[5]) != s@),
                Language::TableGen => assert(language_name(all@[6]) != s@),
                Language::TextProto => assert(language_name(all@[7]) != s@),
            }
        }
        Err(ParseLanguageError(()))
    }
}

impl std::str::FromStr for Language {
    type Err = ParseLanguageError;

    fn from_str(s: &str) -> Result<Language, ParseLanguageError> {
        Language::parse(s)
    }
}

} // verus!
