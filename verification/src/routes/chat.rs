//! Chat sessions against a level: assembling the system-prompt instruction
//! from the level's ordered prompt components.
//!
//! The model backend itself is an outside collaborator; what is verified
//! here is everything decided before it is invoked: which components feed
//! the instruction, the text the placeholders expand to, and the session
//! identifier the conversation is resumed under.

use crate::db::level::LevelID;
use crate::db::prompt::{ComponentID, PromptComponent};
use crate::text::{dec_str, join_strings, joined, replace_str, replaced_of, u64_to_string};
use vstd::prelude::*;
use vstd::string::StringExecFns;
use vstd::utf8::encode_utf8;

verus! {

/// The caller's self-reported identity, echoed into the prompt.
#[derive(Debug)]
pub struct UserInfo {
    pub username: String,
}

/// One chat turn.
#[derive(Debug)]
pub struct ChatRequest {
    pub message: String,
    pub user_info: UserInfo,
}

/// The model's reply.
#[derive(Debug)]
pub struct ChatReply {
    pub reply: String,
}

/// Why a chat turn failed.
#[derive(Debug)]
pub enum ChatError {
    /// No level carries the requested identifier.
    LevelDoesNotExist,
    /// Fetching the level from the store failed.
    GetLevel(String),
    /// Fetching the level's prompt components failed.
    QueryPromptComponents(String),
    /// The model backend refused or failed the invocation.
    BedrockInvocationFailed(String),
    /// The model answered with bytes that are not text.
    IllegalModelResponse,
}

impl ChatError {
    /// Stable machine-readable kind.
    pub fn kind(&self) -> (r: &'static str)
        ensures
            self is LevelDoesNotExist ==> r@ == "LevelDoesNotExist"@,
            self is GetLevel ==> r@ == "GetLevel"@,
            self is QueryPromptComponents ==> r@ == "QueryPromptComponents"@,
            self is BedrockInvocationFailed ==> r@ == "BedrockInvocationFailed"@,
            self is IllegalModelResponse ==> r@ == "IllegalModelResponse"@,
    {
        match self {
            ChatError::LevelDoesNotExist => "LevelDoesNotExist",
            ChatError::GetLevel(_) => "GetLevel",
            ChatError::QueryPromptComponents(_) => "QueryPromptComponents",
            ChatError::BedrockInvocationFailed(_) => "BedrockInvocationFailed",
            ChatError::IllegalModelResponse => "IllegalModelResponse",
        }
    }

    /// Human-readable message.
    pub fn message(&self) -> (r: &'static str)
        ensures
            self is LevelDoesNotExist ==> r@ == "Level does not exist"@,
            self is GetLevel ==> r@ == "Fetching level failed"@,
            self is QueryPromptComponents ==> r@ == "Failed to fetch prompt components"@,
            self is BedrockInvocationFailed ==> r@ == "Failed to invoke bedrock"@,
            self is IllegalModelResponse ==> r@ == "Model responded with Non-UTF8 characters"@,
    {
        match self {
            ChatError::LevelDoesNotExist => "Level does not exist",
            ChatError::GetLevel(_) => "Fetching level failed",
            ChatError::QueryPromptComponents(_) => "Failed to fetch prompt components",
            ChatError::BedrockInvocationFailed(_) => "Failed to invoke bedrock",
            ChatError::IllegalModelResponse => "Model responded with Non-UTF8 characters",
        }
    }

    /// HTTP-equivalent status: a missing level is not found, everything
    /// else a server error.
    pub fn status_code(&self) -> (r: u16)
        ensures
            self is LevelDoesNotExist ==> r == 404,
            !(self is LevelDoesNotExist) ==> r == 500,
    {
        match self {
            ChatError::LevelDoesNotExist => 404,
            ChatError::GetLevel(_) => 500,
            ChatError::QueryPromptComponents(_) => 500,
            ChatError::BedrockInvocationFailed(_) => 500,
            ChatError::IllegalModelResponse => 500,
        }
    }
}

/// The shortest instruction the model backend accepts; shorter ones are
/// padded with trailing spaces.
pub const MIN_INSTRUCTION_LENGTH: usize = 40;

/// The components whose identifiers the level lists, in their stored order.
pub open spec fn matching_components(s: Seq<PromptComponent>, wanted: Seq<ComponentID>) -> Seq<
    PromptComponent,
>
    decreases s.len(),
{
    if s.len() == 0 {
        Seq::empty()
    } else {
        let rest = matching_components(s.drop_first(), wanted);
        if wanted.contains(s[0].component_id) {
            seq![s[0]] + rest
        } else {
            rest
        }
    }
}

/// Keep only the components the level lists, in their stored order: the
/// filter the store's listing query applies.
#[verifier::loop_isolation(false)]
pub fn prompt_components_for_level(components: Vec<PromptComponent>, wanted: &Vec<ComponentID>)
    -> (r: Vec<PromptComponent>)
    ensures
        r@ == matching_components(components@, wanted@),
{
    let ghost orig = components@;
    let mut components = components;
    let mut r: Vec<PromptComponent> = Vec::new();
    let ghost mut done: Seq<PromptComponent> = Seq::empty();
    proof {
        assert(components@ =~= orig);
    }
    loop
        invariant
            matching_components(orig, wanted@) =~= r@ + matching_components(components@, wanted@),
            orig =~= done + components@,
        decreases components@.len(),
    {
        if components.len() == 0 {
            proof {
                assert(matching_components(components@, wanted@) =~= Seq::empty());
                assert(matching_components(orig, wanted@) =~= r@);
            }
            return r;
        }
        let ghost before = components@;
        let c = components.remove(0);
        proof {
            assert(components@ =~= before.drop_first());
            done = done.push(c);
            assert(orig =~= done + components@);
        }
        if id_in_list(wanted, c.component_id) {
            proof {
                assert(matching_components(before, wanted@) =~= seq![c] + matching_components(
                    components@,
                    wanted@,
                ));
            }
            r.push(c);
            proof {
                assert(matching_components(orig, wanted@) =~= r@ + matching_components(
                    components@,
                    wanted@,
                ));
            }
        } else {
            proof {
                assert(matching_components(before, wanted@) =~= matching_components(
                    components@,
                    wanted@,
                ));
            }
        }
    }
}

/// Whether the identifier occurs in the list.
pub fn id_in_list(ids: &Vec<ComponentID>, id: ComponentID) -> (r: bool)
    ensures
        r == ids@.contains(id),
{
    let n = ids.len();
    let mut i: usize = 0;
    while i < n
        invariant
            i <= n,
            n == ids@.len(),
            forall|j: int| 0 <= j < i ==> (#[trigger] ids@[j]) != id,
        decreases n - i,
    {
        if ids[i] == id {
            proof {
                assert(ids@[i as int] == id);
            }
            return true;
        }
        i = i + 1;
    }
    proof {
        if ids@.contains(id) {
            let w = choose|w: int| 0 <= w < ids@.len() && ids@[w] == id;
        }
    }
    false
}

/// The texts of the components, in order.
pub fn component_texts(components: Vec<PromptComponent>) -> (r: Vec<String>)
    ensures
        r@.len() == components@.len(),
        forall|i: int| 0 <= i < components@.len() ==> (#[trigger] r@[i]) == components@[i].text,
{
    let ghost orig = components@;
    let mut components = components;
    let mut r: Vec<String> = Vec::new();
    while components.len() > 0
        invariant
            orig.len() == r@.len() + components@.len(),
            components@ =~= orig.skip(r@.len() as int),
            forall|i: int| 0 <= i < r@.len() ==> (#[trigger] r@[i]) == orig[i].text,
        decreases components@.len(),
    {
        let c = components.remove(0);
        proof {
            assert(c == orig[r@.len() as int]);
            assert(components@ =~= orig.skip(r@.len() as int + 1));
        }
        r.push(c.text);
    }
    r
}

/// The instruction handed to the model: the component texts joined with
/// single spaces, the level-name and user placeholders expanded, the
/// password placeholder replaced by a decoy, and the result padded with
/// trailing spaces up to the minimum length the backend accepts — measured
/// in UTF-8 bytes, which is how the transport counts it.
pub open spec fn instruction_of(
    texts: Seq<Seq<char>>,
    level_name: Seq<char>,
    username: Seq<char>,
) -> Seq<char> {
    let filled = replaced_of(
        replaced_of(
            replaced_of(joined(texts, " "@), "{{LEVEL_NAME}}"@, level_name),
            "{{LEVEL_PASSWORD}}"@,
            "uy8b7t4rsduiy64avfd"@,
        ),
        "{{USER_SUB}}"@,
        username,
    );
    let filled_bytes = encode_utf8(filled).len();
    if filled_bytes >= MIN_INSTRUCTION_LENGTH {
        filled
    } else {
        filled + Seq::new((MIN_INSTRUCTION_LENGTH - filled_bytes) as nat, |i: int| ' ')
    }
}

/// Appending one space lengthens a UTF-8 encoding by exactly one byte.
proof fn lemma_encode_utf8_push_space(a: Seq<char>)
    ensures
        encode_utf8(a.push(' ')).len() == encode_utf8(a).len() + 1,
    decreases a.len(),
{
    if a.len() == 0 {
        assert(a.push(' ')[0] == ' ');
        assert(a.push(' ').drop_first() =~= a);
        assert(vstd::utf8::has_width_1_encoding(' ' as u32));
        assert(vstd::utf8::encode_scalar(' ' as u32).len() == 1);
    } else {
        assert(a.push(' ')[0] == a[0]);
        assert(a.push(' ').drop_first() =~= a.drop_first().push(' '));
        lemma_encode_utf8_push_space(a.drop_first());
    }
}

/// Build the instruction for one chat turn.
pub fn build_instruction(texts: &Vec<String>, level_name: &String, username: &String) -> (r:
    String)
    ensures
        r@ == instruction_of(texts.deep_view(), level_name@, username@),
{
    let joined_texts = join_strings(texts, " ");
    let with_name = replace_str(joined_texts.as_str(), "{{LEVEL_NAME}}", level_name.as_str());
    let with_password = replace_str(
        with_name.as_str(),
        "{{LEVEL_PASSWORD}}",
        "uy8b7t4rsduiy64avfd",
    );
    let mut instruction = replace_str(with_password.as_str(), "{{USER_SUB}}", username.as_str());
    let ghost filled = instruction@;
    let ghost filled_bytes = encode_utf8(filled).len();
    let mut len = instruction.as_str().as_bytes().len();
    while len < MIN_INSTRUCTION_LENGTH
        invariant
            filled_bytes == encode_utf8(filled).len(),
            filled_bytes <= len,
            len == encode_utf8(instruction@).len(),
            len <= vstd::math::max(filled_bytes as int, MIN_INSTRUCTION_LENGTH as int),
            instruction@ =~= filled + Seq::new((len - filled_bytes) as nat, |i: int| ' '),
        decreases MIN_INSTRUCTION_LENGTH - len,
    {
        proof {
            reveal_strlit(" ");
            lemma_encode_utf8_push_space(instruction@);
            assert(instruction@ + " "@ =~= instruction@.push(' '));
            assert(instruction@.push(' ') =~= filled + Seq::new(
                (len + 1 - filled_bytes) as nat,
                |i: int| ' ',
            ));
        }
        instruction.append(" ");
        len = len + 1;
    }
    proof {
        if filled_bytes >= MIN_INSTRUCTION_LENGTH {
            assert(instruction@ =~= filled);
        } else {
            assert(instruction@ =~= filled + Seq::new(
                (MIN_INSTRUCTION_LENGTH - filled_bytes) as nat,
                |i: int| ' ',
            ));
        }
    }
    instruction
}

/// The identifier a chat conversation is resumed under: the level and the
/// caller's session, combined.
pub fn session_identifier(level_id: LevelID, session_id: &str) -> (r: String)
    ensures
        r@ == "level"@ + dec_str(level_id.0 as nat) + "-"@ + session_id@,
{
    let mut s = String::from_str("level");
    let id_digits = u64_to_string(level_id.0);
    s.append(id_digits.as_str());
    s.append("-");
    s.append(session_id);
    proof {
        assert(s@ =~= "level"@ + dec_str(level_id.0 as nat) + "-"@ + session_id@);
    }
    s
}

} // verus!
