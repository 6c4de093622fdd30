//! The static capability descriptor returned for kernel-info requests.

use vstd::prelude::*;
use vstd::string::StringExecFns;
use vstd::string::StrSliceExecFns;

use crate::json::{
    Json, JsonV, view_fields, view_elems, lemma_view_fields_len, lemma_view_fields_index,
    lemma_view_elems_len, lemma_view_elems_index,
};
use crate::messages::{json_str, jstr};

verus! {

/// The kernel's capability and version descriptor.
pub struct KernelInfo {
    pub protocol_version: String,
    pub implementation: String,
    pub implementation_version: String,
    pub language_info: LanguageInfo,
    pub banner: String,
    pub debugger: bool,
    pub help_links: Vec<HelpLink>,
}

/// The language block inside the kernel-info reply.
pub struct LanguageInfo {
    pub name: String,
    pub version: String,
    pub mimetype: String,
    pub file_extension: String,
}

/// One entry of the help-link list.
pub struct HelpLink {
    pub text: String,
    pub url: String,
}

/// The JSON object of one help link.
pub open spec fn help_link_json(l: HelpLink) -> JsonV {
    JsonV::Obj(
        seq![
            (seq![0x74u8, 0x65u8, 0x78u8, 0x74u8], json_str(l.text@)),
            (seq![0x75u8, 0x72u8, 0x6cu8], json_str(l.url@)),
        ],
    )
}

/// The JSON object of the language block.
pub open spec fn language_info_json(li: LanguageInfo) -> JsonV {
    JsonV::Obj(
        seq![
            (seq![0x6eu8, 0x61u8, 0x6du8, 0x65u8], json_str(li.name@)),
            (
                seq![0x76u8, 0x65u8, 0x72u8, 0x73u8, 0x69u8, 0x6fu8, 0x6eu8],
                json_str(li.version@),
            ),
            (
                seq![0x6du8, 0x69u8, 0x6du8, 0x65u8, 0x74u8, 0x79u8, 0x70u8, 0x65u8],
                json_str(li.mimetype@),
            ),
            (
                seq![0x66u8, 0x69u8, 0x6cu8, 0x65u8, 0x5fu8, 0x65u8, 0x78u8, 0x74u8, 0x65u8,
                    0x6eu8, 0x73u8, 0x69u8, 0x6fu8, 0x6eu8],
                json_str(li.file_extension@),
            ),
        ],
    )
}

/// The fields of the kernel-info reply body, in wire order, without the
/// leading status entry.
pub open spec fn kernel_info_fields(ki: KernelInfo) -> Seq<(Seq<u8>, JsonV)> {
    seq![
        (
            seq![0x70u8, 0x72u8, 0x6fu8, 0x74u8, 0x6fu8, 0x63u8, 0x6fu8, 0x6cu8, 0x5fu8, 0x76u8,
                0x65u8, 0x72u8, 0x73u8, 0x69u8, 0x6fu8, 0x6eu8],
            json_str(ki.protocol_version@),
        ),
        (
            seq![0x69u8, 0x6du8, 0x70u8, 0x6cu8, 0x65u8, 0x6du8, 0x65u8, 0x6eu8, 0x74u8, 0x61u8,
                0x74u8, 0x69u8, 0x6fu8, 0x6eu8],
            json_str(ki.implementation@),
        ),
        (
            seq![0x69u8, 0x6du8, 0x70u8, 0x6cu8, 0x65u8, 0x6du8, 0x65u8, 0x6eu8, 0x74u8, 0x61u8,
                0x74u8, 0x69u8, 0x6fu8, 0x6eu8, 0x5fu8, 0x76u8, 0x65u8, 0x72u8, 0x73u8, 0x69u8,
                0x6fu8, 0x6eu8],
            json_str(ki.implementation_version@),
        ),
        (
            seq![0x6cu8, 0x61u8, 0x6eu8, 0x67u8, 0x75u8, 0x61u8, 0x67u8, 0x65u8, 0x5fu8, 0x69u8,
                0x6eu8, 0x66u8, 0x6fu8],
            language_info_json(ki.language_info),
        ),
        (seq![0x62u8, 0x61u8, 0x6eu8, 0x6eu8, 0x65u8, 0x72u8], json_str(ki.banner@)),
        (
            seq![0x64u8, 0x65u8, 0x62u8, 0x75u8, 0x67u8, 0x67u8, 0x65u8, 0x72u8],
            JsonV::Bool(ki.debugger),
        ),
        (
            seq![0x68u8, 0x65u8, 0x6cu8, 0x70u8, 0x5fu8, 0x6cu8, 0x69u8, 0x6eu8, 0x6bu8, 0x73u8],
            JsonV::Arr(Seq::new(ki.help_links@.len(), |i: int| help_link_json(ki.help_links@[i]))),
        ),
    ]
}

impl HelpLink {
    /// The link as its JSON object.
    pub fn to_json(&self) -> (r: Json)
        ensures
            r@ == help_link_json(*self),
    {
        broadcast use {lemma_view_fields_len, lemma_view_fields_index};

        let mut fields: Vec<(Vec<u8>, Json)> = Vec::new();
        fields.push((vec![0x74u8, 0x65u8, 0x78u8, 0x74u8], jstr(self.text.as_str())));
        fields.push((vec![0x75u8, 0x72u8, 0x6cu8], jstr(self.url.as_str())));
        let r = Json::Obj(fields);
        proof {
            assert(view_fields(fields@) =~= help_link_json(*self)->Obj_0);
        }
        r
    }
}

impl LanguageInfo {
    /// The language block as its JSON object.
    pub fn to_json(&self) -> (r: Json)
        ensures
            r@ == language_info_json(*self),
    {
        broadcast use {lemma_view_fields_len, lemma_view_fields_index};

        let mut fields: Vec<(Vec<u8>, Json)> = Vec::new();
        fields.push((vec![0x6eu8, 0x61u8, 0x6du8, 0x65u8], jstr(self.name.as_str())));
        fields.push((vec![0x76u8, 0x65u8, 0x72u8, 0x73u8, 0x69u8, 0x6fu8, 0x6eu8], jstr(
            self.version.as_str())));
        fields.push((vec![0x6du8, 0x69u8, 0x6du8, 0x65u8, 0x74u8, 0x79u8, 0x70u8, 0x65u8], jstr(
            self.mimetype.as_str())));
        fields.push((vec![0x66u8, 0x69u8, 0x6cu8, 0x65u8, 0x5fu8, 0x65u8, 0x78u8, 0x74u8, 0x65u8,
            0x6eu8, 0x73u8, 0x69u8, 0x6fu8, 0x6eu8], jstr(self.file_extension.as_str())));
        let r = Json::Obj(fields);
        proof {
            assert(view_fields(fields@) =~= language_info_json(*self)->Obj_0);
        }
        r
    }
}

/// The one capability descriptor this kernel reports: every call to
/// `get` returns exactly this value, field for field.
pub open spec fn canonical_kernel_info(ki: KernelInfo) -> bool {
    &&& ki.protocol_version@ == "5.3"@
    &&& ki.implementation@ == "nu-jupyter-kernel"@
    &&& ki.implementation_version@ == "0.1.0"@
    &&& ki.language_info.name@ == "nushell"@
    &&& ki.language_info.version@ == "0.104.0"@
    &&& ki.language_info.mimetype@ == "text/nu"@
    &&& ki.language_info.file_extension@ == ".nu"@
    &&& ki.banner@ == "Welcome to the nu kernel"@
    &&& !ki.debugger
    &&& ki.help_links@.len() == 2
    &&& ki.help_links@[0].text@ == "Discord"@
    &&& ki.help_links@[0].url@ == "https://discord.gg/NtAbbGn"@
    &&& ki.help_links@[1].text@ == "GitHub"@
    &&& ki.help_links@[1].url@ == "https://github.com/nushell/nushell"@
}

impl KernelInfo {
    /// The reply fields as JSON, in wire order, without the status entry.
    pub fn to_json_fields(&self) -> (r: Vec<(Vec<u8>, Json)>)
        ensures
            view_fields(r@) == kernel_info_fields(*self),
    {
        broadcast use {
            lemma_view_fields_len,
            lemma_view_fields_index,
            lemma_view_elems_len,
            lemma_view_elems_index,
        };

        let mut links: Vec<Json> = Vec::new();
        let mut k: usize = 0;
        while k < self.help_links.len()
            invariant
                k <= self.help_links@.len(),
                links@.len() == k,
                forall|j: int| 0 <= j < k ==> links@[j]@ == help_link_json(
                    self.help_links@[j],
                ),
            decreases self.help_links@.len() - k,
        {
            links.push(self.help_links[k].to_json());
            k = k + 1;
        }
        let mut fields: Vec<(Vec<u8>, Json)> = Vec::new();
        fields.push((vec![0x70u8, 0x72u8, 0x6fu8, 0x74u8, 0x6fu8, 0x63u8, 0x6fu8, 0x6cu8, 0x5fu8,
            0x76u8, 0x65u8, 0x72u8, 0x73u8, 0x69u8, 0x6fu8, 0x6eu8], jstr(
            self.protocol_version.as_str())));
        fields.push((vec![0x69u8, 0x6du8, 0x70u8, 0x6cu8, 0x65u8, 0x6du8, 0x65u8, 0x6eu8, 0x74u8,
            0x61u8, 0x74u8, 0x69u8, 0x6fu8, 0x6eu8], jstr(self.implementation.as_str())));
        fields.push((vec![0x69u8, 0x6du8, 0x70u8, 0x6cu8, 0x65u8, 0x6du8, 0x65u8, 0x6eu8, 0x74u8,
            0x61u8, 0x74u8, 0x69u8, 0x6fu8, 0x6eu8, 0x5fu8, 0x76u8, 0x65u8, 0x72u8, 0x73u8,
            0x69u8, 0x6fu8, 0x6eu8], jstr(self.implementation_version.as_str())));
        fields.push((vec![0x6cu8, 0x61u8, 0x6eu8, 0x67u8, 0x75u8, 0x61u8, 0x67u8, 0x65u8, 0x5fu8,
            0x69u8, 0x6eu8, 0x66u8, 0x6fu8], self.language_info.to_json()));
        fields.push((vec![0x62u8, 0x61u8, 0x6eu8, 0x6eu8, 0x65u8, 0x72u8], jstr(
            self.banner.as_str())));
        fields.push((vec![0x64u8, 0x65u8, 0x62u8, 0x75u8, 0x67u8, 0x67u8, 0x65u8, 0x72u8],
            Json::Bool(self.debugger)));
        fields.push((vec![0x68u8, 0x65u8, 0x6cu8, 0x70u8, 0x5fu8, 0x6cu8, 0x69u8, 0x6eu8, 0x6bu8,
            0x73u8], Json::Arr(links)));
        proof {
            let want = kernel_info_fields(*self);
            assert(view_elems(links@) =~= want[6].1->Arr_0);
            assert(view_fields(fields@) =~= want);
        }
        fields
    }

    /// The capability descriptor this kernel reports: always the one
    /// canonical value.
    pub fn get() -> (r: KernelInfo)
        ensures
            canonical_kernel_info(r),
    {
        let mut help_links: Vec<HelpLink> = Vec::new();
        help_links.push(HelpLink {
            text: String::from_str("Discord"),
            url: String::from_str("https://discord.gg/NtAbbGn"),
        });
        help_links.push(HelpLink {
            text: String::from_str("GitHub"),
            url: String::from_str("https://github.com/nushell/nushell"),
        });
        KernelInfo {
            protocol_version: String::from_str("5.3"),
            implementation: String::from_str("nu-jupyter-kernel"),
            implementation_version: String::from_str("0.1.0"),
            language_info: LanguageInfo {
                name: String::from_str("nushell"),
                version: String::from_str("0.104.0"),
                mimetype: String::from_str("text/nu"),
                file_extension: String::from_str(".nu"),
            },
            banner: String::from_str("Welcome to the nu kernel"),
            debugger: false,
            help_links,
        }
    }
}

} // verus!
