//! The assistant's agent: its system prompt, the catalogue of tools the model
//! may call, and the decisions of the conversation loop.
//!
//! The loop's safety rules live here:
//! - no tool in the catalogue executes a plan or applies a rule change;
//! - `undo` is never run on the model's initiative: the loop answers such a
//!   call with a refusal, and routing refuses it as well;
//! - the loop asks the model at most `MAX_STEPS` times.
//!
//! Talking to the model and running the tools is the caller's part.

use vstd::prelude::*;
use crate::model::{denial_name, Denial};
use crate::path::opt_seq;
use crate::text::{chars_of, decimal, join, push_decimal, push_str};

verus! {

/// The most model calls one conversation turn may make.
pub const MAX_STEPS: usize = 10;

/// The standing instructions given to the model.
pub const SYSTEM_PROMPT: &'static str = "당신은 TidyDog의 파일 정리 AI 어시스턴트입니다. 사용자의 폴더를 스캔·분석해 정리 플랜을 제안합니다.\n\n■ 두 가지 별개 흐름 — 절대 혼동하지 마라:\nA) 파일 이동/정리 흐름: propose_plan → (사용자 승인) → 실행.\n'이 PDF들을 문서/PDF로 옮겨줘' 같은 지금-한-번 정리 요청이 여기 해당.\nB) 규칙 학습 흐름: propose_rule_change → (사용자 승인) → ORGANIZER.md 반영.\n'앞으로/항상/매번/기본으로/규칙으로' 같은 습관 변경 요청이 여기 해당.\n이 둘은 서로 독립이다. 규칙(ORGANIZER.md)은 '플랜 승인 후'에 만들어지는 게 아니다 —\n규칙은 오직 propose_rule_change 승인으로만 반영된다. 파일 이동이 규칙을 만들지 않고,\n규칙 반영이 파일을 이동시키지 않는다.\n\n■ 제안은 반드시 '도구 호출'로 하라 (매우 중요):\n플랜이나 규칙 변경을 텍스트로 나열하거나 말로 설명하고 끝내지 마라.\n정리가 필요하면 반드시 propose_plan을, 규칙 변경이면 반드시 propose_rule_change를\n실제 tool_use로 호출하라. '~하겠습니다' 같은 서술로 대체하는 것은 실패다.\n\n■ 삭제/제거 처리 — delete 동작은 존재하지 않는다:\n삭제/제거/버리기/중복본 정리 의도는 stage(격리) action 으로 표현한다.\nTidyDog은 파일을 영구 삭제하지 않고 staging(격리)으로 보내며 복원 가능하다.\ndelete/trash 같은 op 는 없다 — '제거'가 필요하면 propose_plan 의 op action 을 stage 로 한다.\n\n■ 현황 조회 vs 플랜 수립 — 도구 역할 분리:\n현황/목록만 볼 때는 list_files(가벼움, 재스캔 없음). 실제 정리 플랜을 만들 때는\nscan_directory 로 content_hash 를 확보한 뒤 propose_plan 을 호출한다. 중복본 판정은\ncontent_hash 일치로 하므로 플랜 수립 전 scan_directory 를 반드시 거친다.\n\n규칙:\n1. propose_plan으로 플랜을 '제안'만 합니다 — 실행은 사용자 승인 후 처리됩니다.\n2. undo 도구는 사용자가 /undo를 직접 입력할 때만 허용됩니다. 자율 호출 금지.\n3. 플랜 수립 필수 순서: scan_directory → read_content(파일마다 반드시 호출) → propose_plan.\n사용자가 정리를 요청하면 이 순서를 끝까지 수행해 propose_plan까지 반드시 호출한다.\n(단순 현황 조회는 list_files 만으로 답하고 이 순서를 강제하지 않는다.)\n4. read_content로 각 파일의 실제 텍스트를 읽고 주제/도메인을 파악한다.\n5. propose_plan 각 op의 'to' 경로는 반드시 읽은 내용 기반으로 결정한다:\n- 코드·프로그래밍 내용 → {루트}/개발/{파일명}\n- 요리·레시피 내용    → {루트}/요리/{파일명}\n- 재무·예산·회계 내용 → {루트}/문서/재무/{파일명}\n- 그 외 주제          → {루트}/문서/{주제}/{파일명}\n파일 확장자나 파일명만 보고 to를 결정하면 안 된다. 내용을 먼저 읽어라.\n6. propose_plan의 ops에는 scan_directory 결과의 content_hash가 필요합니다.\n7. 한국어로 응답합니다.\n8. 사용자가 '앞으로도', '항상', '매번', '기본으로', '규칙으로' 같은 분류 습관 변경 패턴을\n표현하면 propose_rule_change 도구를 호출해 ORGANIZER.md 변경안을 제안한다.\n이 도구는 제안만 하고 파일을 직접 쓰지 않는다(R1). ORGANIZER.md가 아직 없어도\npropose_rule_change는 최초 생성안을 제안할 수 있다.";

// ───────────────────────────── system prompt ─────────────────────────────

/// The system prompt for a conversation about `target` (the folder being
/// organised); no folder, or an empty one, asks the user to pick one.
pub open spec fn prompt_for(target: Option<Seq<char>>) -> Seq<char> {
    match target {
        Some(p) => if p.len() > 0 {
            SYSTEM_PROMPT@ + "\n\n■ 현재 정리 대상: "@ + p + "\n사용자가 경로를 명시하지 않으면 이 폴더를 대상으로 한다. 경로를 되묻지 마라.\n폴더 현황(어떤 파일이 어떻게 정리돼 있는지)을 물으면 list_files 도구로 이미 스캔된 DB 파일 목록을 읽는다. scan_directory(재스캔)는 사용자가 명시적으로 다시 스캔을 요청하거나 대상이 바뀐 경우에만 쓴다."@
        } else {
            SYSTEM_PROMPT@ + "\n\n■ 현재 활성 대상 폴더가 없다. 사용자에게 정리할 폴더를 먼저 선택/알려달라고 요청한다. 임의의 예시 경로(특히 Windows 형식 C:\\... 등)를 지어내지 마라."@
        },
        None => SYSTEM_PROMPT@ + "\n\n■ 현재 활성 대상 폴더가 없다. 사용자에게 정리할 폴더를 먼저 선택/알려달라고 요청한다. 임의의 예시 경로(특히 Windows 형식 C:\\... 등)를 지어내지 마라."@,
    }
}

pub open spec fn target_view(t: Option<&str>) -> Option<Seq<char>> {
    match t {
        Some(s) => Some(s@),
        None => None,
    }
}

/// The system prompt, with the folder being organised when there is one.
pub fn build_system_prompt(target_dir: Option<&str>) -> (r: String)
    ensures
        r@ == prompt_for(target_view(target_dir)),
{
    let mut r = String::new();
    push_str(&mut r, SYSTEM_PROMPT);
    match target_dir {
        Some(path) => {
            let v = chars_of(path);
            if v.len() > 0 {
                push_str(&mut r, "\n\n■ 현재 정리 대상: ");
                push_str(&mut r, path);
                push_str(&mut r, "\n사용자가 경로를 명시하지 않으면 이 폴더를 대상으로 한다. 경로를 되묻지 마라.\n폴더 현황(어떤 파일이 어떻게 정리돼 있는지)을 물으면 list_files 도구로 이미 스캔된 DB 파일 목록을 읽는다. scan_directory(재스캔)는 사용자가 명시적으로 다시 스캔을 요청하거나 대상이 바뀐 경우에만 쓴다.");
            } else {
                push_str(&mut r, "\n\n■ 현재 활성 대상 폴더가 없다. 사용자에게 정리할 폴더를 먼저 선택/알려달라고 요청한다. 임의의 예시 경로(특히 Windows 형식 C:\\... 등)를 지어내지 마라.");
            }
        },
        None => {
            push_str(&mut r, "\n\n■ 현재 활성 대상 폴더가 없다. 사용자에게 정리할 폴더를 먼저 선택/알려달라고 요청한다. 임의의 예시 경로(특히 Windows 형식 C:\\... 등)를 지어내지 마라.");
        },
    }
    r
}

/// An empty folder name reads as no folder at all.
pub proof fn lemma_empty_target_is_no_target()
    ensures
        prompt_for(Some(Seq::<char>::empty())) == prompt_for(None),
{
}

// ───────────────────────────── tool catalogue ─────────────────────────────

/// A tool offered to the model: its name, what it is for, and its input
/// schema as JSON text.
pub struct ToolSpec {
    pub name: String,
    pub description: String,
    pub input_schema: String,
}

pub open spec fn tool_names(ts: Seq<ToolSpec>) -> Seq<Seq<char>> {
    ts.map_values(|t: ToolSpec| t.name@)
}

/// The names of the tools, in catalogue order.
pub open spec fn catalog_names() -> Seq<Seq<char>> {
    seq!["scan_directory"@, "list_files"@, "read_content"@, "summarize"@, "propose_plan"@, "propose_rule_change"@, "undo"@]
}

/// What `scan_directory` is for, as the model is told.
pub const SCAN_DIRECTORY_DESCRIPTION: &'static str = "폴더를 재귀 스캔해 파일 목록과 content_hash 를 반환한다. 정리 플랜을 수립할 때 사용한다 — propose_plan 의 ops 에 필요한 content_hash 를 여기서 얻고, 중복본은 content_hash 일치로 판정한다.";

/// The input schema of `scan_directory`, as JSON text.
pub const SCAN_DIRECTORY_SCHEMA: &'static str = "{\"type\":\"object\",\"properties\":{\"path\":{\"type\":\"string\",\"description\":\"스캔할 폴더 절대 경로\"}},\"required\":[\"path\"]}";

/// What `list_files` is for, as the model is told.
pub const LIST_FILES_DESCRIPTION: &'static str = "이미 스캔되어 DB에 있는 파일 목록을 읽어 반환한다(재스캔하지 않음). 현재 정리 대상 폴더의 현황(파일 경로·확장자·태그·요약·제안 목적지)을 물을 때만 사용한다. 파일시스템을 다시 걷지 않고 DB 행만 읽는 읽기 전용 도구다. content_hash 를 반환하지 않으므로 플랜 수립에는 쓰지 않는다 — 플랜을 만들 때는 scan_directory 를 사용하라. path 를 생략하면 현재 정리 대상 폴더 전체를 대상으로 한다.";

/// The input schema of `list_files`, as JSON text.
pub const LIST_FILES_SCHEMA: &'static str = "{\"type\":\"object\",\"properties\":{\"path\":{\"type\":\"string\",\"description\":\"조회할 폴더 절대 경로(생략 시 현재 대상)\"}}}";

/// What `read_content` is for, as the model is told.
pub const READ_CONTENT_DESCRIPTION: &'static str = "파일의 텍스트 내용을 읽어 반환한다. 반환된 'text' 필드를 보고 파일의 주제/도메인을 파악해 propose_plan의 to 경로 결정에 사용한다. 사용자 동의 필요(N1/G1) · 범위 내 파일만 가능(G2/G3) · 최대 4096자(N3).";

/// The input schema of `read_content`, as JSON text.
pub const READ_CONTENT_SCHEMA: &'static str = "{\"type\":\"object\",\"properties\":{\"path\":{\"type\":\"string\",\"description\":\"읽을 파일의 절대 경로 (범위 내)\"}},\"required\":[\"path\"]}";

/// What `summarize` is for, as the model is told.
pub const SUMMARIZE_DESCRIPTION: &'static str = "파일 내용을 읽어 AI 요약과 태그를 반환한다. 사용자 동의 필요(N1/G1) · 사용자 지정 범위 내 파일만 가능(G2/G3).";

/// The input schema of `summarize`, as JSON text.
pub const SUMMARIZE_SCHEMA: &'static str = "{\"type\":\"object\",\"properties\":{\"path\":{\"type\":\"string\",\"description\":\"요약할 파일의 절대 경로 (범위 내)\"}},\"required\":[\"path\"]}";

/// What `propose_plan` is for, as the model is told.
pub const PROPOSE_PLAN_DESCRIPTION: &'static str = "파일 이동/격리/리네임 플랜을 생성한다. 실행하지 않음 — 사용자 승인 후 실행됨. 플랜 수립 전 scan_directory 로 content_hash 를 확보한다(중복본은 해시 일치로 판정). 삭제/제거 동작은 없다 — 제거 의도는 action=stage 로 표현한다.";

/// The input schema of `propose_plan`, as JSON text.
pub const PROPOSE_PLAN_SCHEMA: &'static str = "{\"type\":\"object\",\"properties\":{\"ops\":{\"type\":\"array\",\"description\":\"수행할 작업 목록\",\"items\":{\"type\":\"object\",\"properties\":{\"action\":{\"type\":\"string\",\"enum\":[\"move\",\"stage\",\"rename\"],\"description\":\"move = 다른 폴더로 이동. stage = 격리(소프트 삭제) — 삭제/제거/버리기/중복본 처리는 이 값으로 한다(영구삭제 아님, 복원 가능). rename = 같은 폴더 내 이름 변경. delete/trash 는 존재하지 않는다.\"},\"content_hash\":{\"type\":\"string\",\"description\":\"scan_directory 결과의 파일 해시(중복 판정 기준)\"},\"from\":{\"type\":\"string\",\"description\":\"현재 파일 경로\"},\"to\":{\"type\":\"string\",\"description\":\"목적 경로 — read_content로 읽은 파일 내용의 주제를 기반으로 결정한다. 예: Python 코드 → {루트}/개발/{파일명}, 레시피 → {루트}/요리/{파일명}, 재무문서 → {루트}/문서/재무/{파일명}\"},\"reason\":{\"type\":\"string\",\"description\":\"이 작업을 제안하는 이유\"}},\"required\":[\"action\",\"content_hash\",\"from\",\"to\"]}}},\"required\":[\"ops\"]}";

/// What `propose_rule_change` is for, as the model is told.
pub const PROPOSE_RULE_CHANGE_DESCRIPTION: &'static str = "사용자가 '앞으로도', '항상', '매번' 같은 습관 규칙을 말할 때 ORGANIZER.md 변경안(diff)을 생성한다. 파일을 직접 쓰지 않음(R1). 사용자 승인 후 반영된다.";

/// The input schema of `propose_rule_change`, as JSON text.
pub const PROPOSE_RULE_CHANGE_SCHEMA: &'static str = "{\"type\":\"object\",\"properties\":{\"request\":{\"type\":\"string\",\"description\":\"사용자의 규칙 변경 요청 (자연어). 예: '앞으로 스크린샷은 사진/스크린샷 폴더로 모아줘'\"}},\"required\":[\"request\"]}";

/// What `undo` is for, as the model is told.
pub const UNDO_DESCRIPTION: &'static str = "[사용자 트리거 전용] /undo 명령으로만 호출 가능. 에이전트 자율 추론 중 호출하면 거부됩니다 (I2).";

/// The input schema of `undo`, as JSON text.
pub const UNDO_SCHEMA: &'static str = "{\"type\":\"object\",\"properties\":{\"plan_id\":{\"type\":\"string\",\"description\":\"되돌릴 플랜 ID\"}},\"required\":[\"plan_id\"]}";

/// A tool's name, description and input schema as texts.
pub open spec fn tool_texts(ts: Seq<ToolSpec>) -> Seq<(Seq<char>, Seq<char>, Seq<char>)> {
    ts.map_values(|t: ToolSpec| (t.name@, t.description@, t.input_schema@))
}

/// The catalogue: each tool's name, description and input schema, in order.
pub open spec fn catalog() -> Seq<(Seq<char>, Seq<char>, Seq<char>)> {
    seq![
        ("scan_directory"@, SCAN_DIRECTORY_DESCRIPTION@, SCAN_DIRECTORY_SCHEMA@),
        ("list_files"@, LIST_FILES_DESCRIPTION@, LIST_FILES_SCHEMA@),
        ("read_content"@, READ_CONTENT_DESCRIPTION@, READ_CONTENT_SCHEMA@),
        ("summarize"@, SUMMARIZE_DESCRIPTION@, SUMMARIZE_SCHEMA@),
        ("propose_plan"@, PROPOSE_PLAN_DESCRIPTION@, PROPOSE_PLAN_SCHEMA@),
        ("propose_rule_change"@, PROPOSE_RULE_CHANGE_DESCRIPTION@, PROPOSE_RULE_CHANGE_SCHEMA@),
        ("undo"@, UNDO_DESCRIPTION@, UNDO_SCHEMA@),
    ]
}

/// The tools the model may call, with their descriptions and input schemas.
pub fn tool_catalog() -> (r: Vec<ToolSpec>)
    ensures
        tool_names(r@) == catalog_names(),
        tool_texts(r@) == catalog(),
{
    let mut v: Vec<ToolSpec> = Vec::new();
    v.push(ToolSpec {
        name: "scan_directory".to_string(),
        description: SCAN_DIRECTORY_DESCRIPTION.to_string(),
        input_schema: SCAN_DIRECTORY_SCHEMA.to_string(),
    });
    v.push(ToolSpec {
        name: "list_files".to_string(),
        description: LIST_FILES_DESCRIPTION.to_string(),
        input_schema: LIST_FILES_SCHEMA.to_string(),
    });
    v.push(ToolSpec {
        name: "read_content".to_string(),
        description: READ_CONTENT_DESCRIPTION.to_string(),
        input_schema: READ_CONTENT_SCHEMA.to_string(),
    });
    v.push(ToolSpec {
        name: "summarize".to_string(),
        description: SUMMARIZE_DESCRIPTION.to_string(),
        input_schema: SUMMARIZE_SCHEMA.to_string(),
    });
    v.push(ToolSpec {
        name: "propose_plan".to_string(),
        description: PROPOSE_PLAN_DESCRIPTION.to_string(),
        input_schema: PROPOSE_PLAN_SCHEMA.to_string(),
    });
    v.push(ToolSpec {
        name: "propose_rule_change".to_string(),
        description: PROPOSE_RULE_CHANGE_DESCRIPTION.to_string(),
        input_schema: PROPOSE_RULE_CHANGE_SCHEMA.to_string(),
    });
    v.push(ToolSpec {
        name: "undo".to_string(),
        description: UNDO_DESCRIPTION.to_string(),
        input_schema: UNDO_SCHEMA.to_string(),
    });
    assert(tool_names(v@) =~= catalog_names());
    assert(tool_texts(v@) =~= catalog());
    v
}

/// A planned operation's `action` is one of exactly `move`, `stage` and
/// `rename` in `propose_plan`'s input schema: there is no delete.
pub proof fn lemma_plan_actions_are_move_stage_rename()
    ensures
        PROPOSE_PLAN_SCHEMA@.subrange(118, 176) == "\"action\":{\"type\":\"string\",\"enum\":[\"move\",\"stage\",\"rename\"]"@,
{
    reveal_strlit("{\"type\":\"object\",\"properties\":{\"ops\":{\"type\":\"array\",\"description\":\"수행할 작업 목록\",\"items\":{\"type\":\"object\",\"properties\":{\"action\":{\"type\":\"string\",\"enum\":[\"move\",\"stage\",\"rename\"],\"description\":\"move = 다른 폴더로 이동. stage = 격리(소프트 삭제) — 삭제/제거/버리기/중복본 처리는 이 값으로 한다(영구삭제 아님, 복원 가능). rename = 같은 폴더 내 이름 변경. delete/trash 는 존재하지 않는다.\"},\"content_hash\":{\"type\":\"string\",\"description\":\"scan_directory 결과의 파일 해시(중복 판정 기준)\"},\"from\":{\"type\":\"string\",\"description\":\"현재 파일 경로\"},\"to\":{\"type\":\"string\",\"description\":\"목적 경로 — read_content로 읽은 파일 내용의 주제를 기반으로 결정한다. 예: Python 코드 → {루트}/개발/{파일명}, 레시피 → {루트}/요리/{파일명}, 재무문서 → {루트}/문서/재무/{파일명}\"},\"reason\":{\"type\":\"string\",\"description\":\"이 작업을 제안하는 이유\"}},\"required\":[\"action\",\"content_hash\",\"from\",\"to\"]}}},\"required\":[\"ops\"]}");
    assert(PROPOSE_PLAN_SCHEMA@ == "{\"type\":\"object\",\"properties\":{\"ops\":{\"type\":\"array\",\"description\":\"수행할 작업 목록\",\"items\":{\"type\":\"object\",\"properties\":{\"action\":{\"type\":\"string\",\"enum\":[\"move\",\"stage\",\"rename\"],\"description\":\"move = 다른 폴더로 이동. stage = 격리(소프트 삭제) — 삭제/제거/버리기/중복본 처리는 이 값으로 한다(영구삭제 아님, 복원 가능). rename = 같은 폴더 내 이름 변경. delete/trash 는 존재하지 않는다.\"},\"content_hash\":{\"type\":\"string\",\"description\":\"scan_directory 결과의 파일 해시(중복 판정 기준)\"},\"from\":{\"type\":\"string\",\"description\":\"현재 파일 경로\"},\"to\":{\"type\":\"string\",\"description\":\"목적 경로 — read_content로 읽은 파일 내용의 주제를 기반으로 결정한다. 예: Python 코드 → {루트}/개발/{파일명}, 레시피 → {루트}/요리/{파일명}, 재무문서 → {루트}/문서/재무/{파일명}\"},\"reason\":{\"type\":\"string\",\"description\":\"이 작업을 제안하는 이유\"}},\"required\":[\"action\",\"content_hash\",\"from\",\"to\"]}}},\"required\":[\"ops\"]}"@);
    reveal_strlit("\"action\":{\"type\":\"string\",\"enum\":[\"move\",\"stage\",\"rename\"]");
    assert(PROPOSE_PLAN_SCHEMA@.subrange(118, 176) =~= "\"action\":{\"type\":\"string\",\"enum\":[\"move\",\"stage\",\"rename\"]"@);
}

/// Nothing the model can call executes a plan or applies a rule change:
/// neither `execute`, `execute_plan` nor `apply_rule_change` is in the catalogue.
pub proof fn lemma_catalog_never_executes()
    ensures
        !catalog_names().contains("execute"@),
        !catalog_names().contains("execute_plan"@),
        !catalog_names().contains("apply_rule_change"@),
{
    reveal_strlit("scan_directory");
    reveal_strlit("list_files");
    reveal_strlit("read_content");
    reveal_strlit("summarize");
    reveal_strlit("propose_plan");
    reveal_strlit("propose_rule_change");
    reveal_strlit("undo");
    reveal_strlit("execute");
    reveal_strlit("execute_plan");
    reveal_strlit("apply_rule_change");
    let c = catalog_names();
    assert forall|i: int| 0 <= i < c.len() implies c[i] != "execute"@ && c[i] != "execute_plan"@
        && c[i] != "apply_rule_change"@ by {
        assert(c[i].len() != "execute"@.len() || c[i][0] != "execute"@[0]);
        assert(c[i].len() != "execute_plan"@.len() || c[i][0] != "execute_plan"@[0]);
        assert(c[i].len() != "apply_rule_change"@.len() || c[i][0] != "apply_rule_change"@[0]);
    }
}

// ───────────────────────────── routing ─────────────────────────────

/// Where a tool call goes.
#[derive(Debug, Clone, Copy, PartialEq, Eq, Structural)]
pub enum ToolRoute {
    ScanDirectory,
    ListFiles,
    ReadContent,
    Summarize,
    ProposePlan,
    ProposeRuleChange,
    Undo,
    Unknown,
}

pub open spec fn route_of(name: Seq<char>) -> ToolRoute {
    if name == "scan_directory"@ {
        ToolRoute::ScanDirectory
    } else if name == "list_files"@ {
        ToolRoute::ListFiles
    } else if name == "read_content"@ {
        ToolRoute::ReadContent
    } else if name == "summarize"@ {
        ToolRoute::Summarize
    } else if name == "propose_plan"@ {
        ToolRoute::ProposePlan
    } else if name == "propose_rule_change"@ {
        ToolRoute::ProposeRuleChange
    } else if name == "undo"@ {
        ToolRoute::Undo
    } else {
        ToolRoute::Unknown
    }
}

/// Routes a tool call by the tool's name.
pub fn route_tool(name: &str) -> (r: ToolRoute)
    ensures
        r == route_of(name@),
{
    if crate::model::str_eq(name, "scan_directory") {
        ToolRoute::ScanDirectory
    } else if crate::model::str_eq(name, "list_files") {
        ToolRoute::ListFiles
    } else if crate::model::str_eq(name, "read_content") {
        ToolRoute::ReadContent
    } else if crate::model::str_eq(name, "summarize") {
        ToolRoute::Summarize
    } else if crate::model::str_eq(name, "propose_plan") {
        ToolRoute::ProposePlan
    } else if crate::model::str_eq(name, "propose_rule_change") {
        ToolRoute::ProposeRuleChange
    } else if crate::model::str_eq(name, "undo") {
        ToolRoute::Undo
    } else {
        ToolRoute::Unknown
    }
}

pub open spec fn undo_dispatch_message() -> Seq<char> {
    "undo 도구는 에이전트 자율 경로에서 호출할 수 없습니다 (I2). /undo 를 직접 입력하세요."@
}

/// The refusal routing gives: always for `undo`, and for an unknown tool.
pub open spec fn dispatch_refusal_of(name: Seq<char>) -> Option<Seq<char>> {
    match route_of(name) {
        ToolRoute::Undo => Some(undo_dispatch_message()),
        ToolRoute::Unknown => Some("알 수 없는 도구: "@ + name),
        _ => None,
    }
}

/// The error a tool call gets instead of running, if any.
pub fn dispatch_refusal(name: &str) -> (r: Option<String>)
    ensures
        opt_seq(r) == dispatch_refusal_of(name@),
{
    match route_tool(name) {
        ToolRoute::Undo => Some(
            "undo 도구는 에이전트 자율 경로에서 호출할 수 없습니다 (I2). /undo 를 직접 입력하세요.".to_string(),
        ),
        ToolRoute::Unknown => {
            let mut m = String::new();
            push_str(&mut m, "알 수 없는 도구: ");
            push_str(&mut m, name);
            Some(m)
        },
        _ => None,
    }
}

/// The error for a tool call that lacks its required input.
pub open spec fn missing_input_of(route: ToolRoute) -> Option<Seq<char>> {
    match route {
        ToolRoute::ScanDirectory => Some("scan_directory: 'path' 없음"@),
        ToolRoute::ReadContent => Some("read_content: 'path' 없음"@),
        ToolRoute::Summarize => Some("summarize: 'path' 없음"@),
        ToolRoute::ProposePlan => Some("propose_plan: 'ops' 없음"@),
        ToolRoute::ProposeRuleChange => Some("propose_rule_change: 'request' 없음"@),
        _ => None,
    }
}

/// What a tool call is told when its required input is missing (`None` for
/// tools with no required input).
pub fn missing_input_message(route: ToolRoute) -> (r: Option<String>)
    ensures
        opt_seq(r) == missing_input_of(route),
{
    match route {
        ToolRoute::ScanDirectory => Some("scan_directory: 'path' 없음".to_string()),
        ToolRoute::ReadContent => Some("read_content: 'path' 없음".to_string()),
        ToolRoute::Summarize => Some("summarize: 'path' 없음".to_string()),
        ToolRoute::ProposePlan => Some("propose_plan: 'ops' 없음".to_string()),
        ToolRoute::ProposeRuleChange => Some("propose_rule_change: 'request' 없음".to_string()),
        _ => None,
    }
}

/// Whether a successful call of this tool ends the turn (a plan or a rule
/// change was proposed).
pub fn ends_turn(route: ToolRoute) -> (b: bool)
    ensures
        b == (route == ToolRoute::ProposePlan || route == ToolRoute::ProposeRuleChange),
{
    match route {
        ToolRoute::ProposePlan | ToolRoute::ProposeRuleChange => true,
        _ => false,
    }
}

pub open spec fn loop_undo_message() -> Seq<char> {
    "undo는 사용자가 /undo를 직접 입력할 때만 실행됩니다 (I2). 에이전트 자율 호출 차단."@
}

/// The loop's own check on a tool call: `undo` is answered with a refusal
/// and never dispatched.
pub fn tool_call_gate(name: &str) -> (r: Option<String>)
    ensures
        name@ == "undo"@ ==> opt_seq(r) == Some(loop_undo_message()),
        name@ != "undo"@ ==> r is None,
{
    if crate::model::str_eq(name, "undo") {
        Some("undo는 사용자가 /undo를 직접 입력할 때만 실행됩니다 (I2). 에이전트 자율 호출 차단.".to_string())
    } else {
        None
    }
}

/// `undo` never runs on the model's initiative: the loop refuses a call of
/// it, and routing, were the call to reach it, refuses it too.
pub proof fn lemma_undo_never_runs(name: Seq<char>)
    requires
        name == "undo"@,
    ensures
        route_of(name) == ToolRoute::Undo,
        dispatch_refusal_of(name) == Some(undo_dispatch_message()),
{
    reveal_strlit("scan_directory");
    reveal_strlit("list_files");
    reveal_strlit("read_content");
    reveal_strlit("summarize");
    reveal_strlit("propose_plan");
    reveal_strlit("propose_rule_change");
    reveal_strlit("undo");
    assert(name.len() == 4);
}

// ───────────────────────────── model replies ─────────────────────────────

/// A block of a model reply: its type, and its text when it has one.
pub struct ContentBlock {
    pub block_type: String,
    pub text: Option<String>,
}

pub open spec fn is_text_block(b: ContentBlock) -> bool {
    b.block_type@ == "text"@
}

pub open spec fn is_tool_block(b: ContentBlock) -> bool {
    b.block_type@ == "tool_use"@
}

/// The texts of the text blocks, in order (a text block without text gives "").
pub open spec fn text_parts(bs: Seq<ContentBlock>) -> Seq<Seq<char>>
    decreases bs.len(),
{
    if bs.len() == 0 {
        Seq::empty()
    } else {
        let p = text_parts(bs.drop_last());
        if is_text_block(bs.last()) {
            p.push(
                match bs.last().text {
                    Some(t) => t@,
                    None => Seq::empty(),
                },
            )
        } else {
            p
        }
    }
}

/// The reply's text: its text blocks joined by line breaks.
pub open spec fn extracted(bs: Seq<ContentBlock>) -> Seq<char> {
    join(text_parts(bs), "\n"@)
}

/// The positions of the tool-call blocks, in order.
pub open spec fn tool_uses(bs: Seq<ContentBlock>) -> Seq<int>
    decreases bs.len(),
{
    if bs.len() == 0 {
        Seq::empty()
    } else {
        let p = tool_uses(bs.drop_last());
        if is_tool_block(bs.last()) {
            p.push(bs.len() - 1)
        } else {
            p
        }
    }
}

/// The text of a reply's text blocks, joined by line breaks.
pub fn extract_text(content: &[ContentBlock]) -> (r: String)
    ensures
        r@ == extracted(content@),
{
    let mut parts: Vec<String> = Vec::new();
    let mut i: usize = 0;
    assert(content@.subrange(0, 0) =~= Seq::<ContentBlock>::empty());
    assert(crate::model::texts(parts@) =~= Seq::<Seq<char>>::empty());
    while i < content.len()
        invariant
            0 <= i <= content.len(),
            crate::model::texts(parts@) == text_parts(content@.subrange(0, i as int)),
        decreases content.len() - i,
    {
        let ghost pre = content@.subrange(0, i as int);
        assert(content@.subrange(0, i + 1).drop_last() =~= pre);
        assert(content@.subrange(0, i + 1).last() == content@[i as int]);
        if crate::model::str_eq(content[i].block_type.as_str(), "text") {
            let t = match &content[i].text {
                Some(t) => t.clone(),
                None => String::new(),
            };
            let ghost before = crate::model::texts(parts@);
            parts.push(t);
            assert(crate::model::texts(parts@) =~= before.push(t@));
        }
        i += 1;
    }
    assert(content@.subrange(0, content.len() as int) =~= content@);
    crate::model::join_with(parts.as_slice(), "\n")
}

/// What the loop does with a reply.
pub enum ReplyStep {
    /// End the turn with this text.
    Finish(String),
    /// Ask the model, with this message, to get to the point.
    Nudge(String),
    /// Run the tool calls at these positions of the reply.
    RunTools(Vec<usize>),
}

pub enum ReplyStepV {
    Finish(Seq<char>),
    Nudge(Seq<char>),
    RunTools(Seq<int>),
}

impl View for ReplyStep {
    type V = ReplyStepV;

    open spec fn view(&self) -> ReplyStepV {
        match self {
            ReplyStep::Finish(t) => ReplyStepV::Finish(t@),
            ReplyStep::Nudge(t) => ReplyStepV::Nudge(t@),
            ReplyStep::RunTools(v) => ReplyStepV::RunTools(v@.map_values(|i: usize| i as int)),
        }
    }
}

pub open spec fn nudge_message() -> Seq<char> {
    "이전 응답이 max_tokens 로 잘렸습니다. 설명은 최소화하고 곧바로 propose_plan(정리) 또는 propose_rule_change(규칙) 도구를 호출해 마무리하세요."@
}

/// The loop's decision on a reply that stopped for `stop`: tool calls are
/// run; a reply cut short by the token limit without tool calls gets a nudge;
/// anything else ends the turn with the reply's text.
pub open spec fn reply_decision(stop: Seq<char>, bs: Seq<ContentBlock>) -> ReplyStepV {
    if stop == "tool_use"@ || stop == "max_tokens"@ {
        let tools = tool_uses(bs);
        if tools.len() == 0 {
            if stop == "max_tokens"@ {
                ReplyStepV::Nudge(nudge_message())
            } else {
                ReplyStepV::Finish(extracted(bs))
            }
        } else {
            ReplyStepV::RunTools(tools)
        }
    } else {
        ReplyStepV::Finish(extracted(bs))
    }
}

fn tool_positions(content: &[ContentBlock]) -> (r: Vec<usize>)
    ensures
        r@.map_values(|i: usize| i as int) == tool_uses(content@),
{
    let mut r: Vec<usize> = Vec::new();
    let mut i: usize = 0;
    assert(content@.subrange(0, 0) =~= Seq::<ContentBlock>::empty());
    assert(r@.map_values(|i: usize| i as int) =~= Seq::<int>::empty());
    while i < content.len()
        invariant
            0 <= i <= content.len(),
            r@.map_values(|i: usize| i as int) == tool_uses(content@.subrange(0, i as int)),
        decreases content.len() - i,
    {
        let ghost pre = content@.subrange(0, i as int);
        assert(content@.subrange(0, i + 1).drop_last() =~= pre);
        assert(content@.subrange(0, i + 1).last() == content@[i as int]);
        if crate::model::str_eq(content[i].block_type.as_str(), "tool_use") {
            let ghost before = r@.map_values(|i: usize| i as int);
            r.push(i);
            assert(r@.map_values(|i: usize| i as int) =~= before.push(i as int));
        }
        i += 1;
    }
    assert(content@.subrange(0, content.len() as int) =~= content@);
    r
}

/// The tool-call positions of a reply are exactly the positions of its
/// `tool_use` blocks, in increasing order.
pub proof fn lemma_tool_uses_exact(bs: Seq<ContentBlock>)
    ensures
        forall|k: int|
            0 <= k < tool_uses(bs).len() ==> 0 <= #[trigger] tool_uses(bs)[k] < bs.len() && is_tool_block(
                bs[tool_uses(bs)[k]],
            ),
        forall|i: int| 0 <= i < bs.len() && is_tool_block(#[trigger] bs[i]) ==> tool_uses(bs).contains(i),
        forall|a: int, b: int| 0 <= a < b < tool_uses(bs).len() ==> tool_uses(bs)[a] < tool_uses(bs)[b],
    decreases bs.len(),
{
    if bs.len() > 0 {
        let rest = bs.drop_last();
        lemma_tool_uses_exact(rest);
        let t = tool_uses(bs);
        let tr = tool_uses(rest);
        assert forall|k: int| 0 <= k < t.len() implies 0 <= #[trigger] t[k] < bs.len() && is_tool_block(bs[t[k]]) by {
            if k < tr.len() {
                assert(t[k] == tr[k]);
                assert(rest[tr[k]] == bs[tr[k]]);
            }
        }
        assert forall|i: int| 0 <= i < bs.len() && is_tool_block(#[trigger] bs[i]) implies t.contains(i) by {
            if i < bs.len() - 1 {
                assert(rest[i] == bs[i]);
                let k = choose|k: int| 0 <= k < tr.len() && tr[k] == i;
                assert(t[k] == i);
            } else {
                assert(t[t.len() - 1] == i);
            }
        }
        assert forall|a: int, b: int| 0 <= a < b < t.len() implies t[a] < t[b] by {
            if b < tr.len() {
                assert(t[a] == tr[a] && t[b] == tr[b]);
            } else {
                assert(t[a] == tr[a]);
                assert(tr[a] < rest.len());
            }
        }
    }
}

/// A reply that stops for a tool call or at the token limit and carries tool
/// calls has all of them run, in order; the model is nudged only after a reply
/// cut at the token limit with no tool call; a reply without tool calls, or
/// one that stopped for any other reason, ends the turn.
pub proof fn lemma_tool_calls_always_run(stop: Seq<char>, bs: Seq<ContentBlock>)
    ensures
        (stop == "tool_use"@ || stop == "max_tokens"@) && (exists|i: int|
            0 <= i < bs.len() && is_tool_block(#[trigger] bs[i])) ==> reply_decision(stop, bs)
            == ReplyStepV::RunTools(tool_uses(bs)) && tool_uses(bs).len() > 0,
        reply_decision(stop, bs) is Nudge ==> stop == "max_tokens"@ && forall|i: int|
            0 <= i < bs.len() ==> !is_tool_block(#[trigger] bs[i]),
        reply_decision(stop, bs) matches ReplyStepV::RunTools(v) ==> v.len() > 0 && (stop == "tool_use"@
            || stop == "max_tokens"@),
        !(stop == "tool_use"@ || stop == "max_tokens"@) ==> reply_decision(stop, bs) is Finish,
{
    lemma_tool_uses_exact(bs);
    if exists|i: int| 0 <= i < bs.len() && is_tool_block(#[trigger] bs[i]) {
        let i = choose|i: int| 0 <= i < bs.len() && is_tool_block(#[trigger] bs[i]);
        assert(tool_uses(bs).contains(i));
    }
    if tool_uses(bs).len() > 0 {
        assert(is_tool_block(bs[tool_uses(bs)[0]]));
    }
}

/// Decides what to do with a model reply (see `reply_decision`).
pub fn reply_step(stop_reason: &str, content: &[ContentBlock]) -> (r: ReplyStep)
    ensures
        r@ == reply_decision(stop_reason@, content@),
        (stop_reason@ == "tool_use"@ || stop_reason@ == "max_tokens"@) && (exists|i: int|
            0 <= i < content@.len() && is_tool_block(#[trigger] content@[i])) ==> r is RunTools,
        r matches ReplyStep::RunTools(v) ==> v@.len() > 0 && forall|k: int|
            0 <= k < v@.len() ==> (#[trigger] v@[k]) < content@.len() && is_tool_block(content@[v@[k] as int]),
        r is Nudge ==> stop_reason@ == "max_tokens"@ && forall|i: int|
            0 <= i < content@.len() ==> !is_tool_block(#[trigger] content@[i]),
{
    proof {
        lemma_tool_calls_always_run(stop_reason@, content@);
        lemma_tool_uses_exact(content@);
    }
    let is_tool = crate::model::str_eq(stop_reason, "tool_use");
    let is_max = crate::model::str_eq(stop_reason, "max_tokens");
    if is_tool || is_max {
        let tools = tool_positions(content);
        if tools.len() == 0 {
            if is_max {
                ReplyStep::Nudge(
                    "이전 응답이 max_tokens 로 잘렸습니다. 설명은 최소화하고 곧바로 propose_plan(정리) 또는 propose_rule_change(규칙) 도구를 호출해 마무리하세요.".to_string(),
                )
            } else {
                ReplyStep::Finish(extract_text(content))
            }
        } else {
            proof {
                assert forall|k: int| 0 <= k < tools@.len() implies (#[trigger] tools@[k]) < content@.len()
                    && is_tool_block(content@[tools@[k] as int]) by {
                    assert(tools@.map_values(|i: usize| i as int)[k] == tools@[k] as int);
                    assert(tool_uses(content@)[k] == tools@[k] as int);
                }
            }
            ReplyStep::RunTools(tools)
        }
    } else {
        ReplyStep::Finish(extract_text(content))
    }
}

// ───────────────────────────── the turn's end ─────────────────────────────

/// A message of the conversation: its role, and its blocks when its content
/// is a list of blocks.
pub struct ChatMessage {
    pub role: String,
    pub blocks: Option<Vec<ContentBlock>>,
}

/// The first text block of a list.
pub open spec fn first_text_block(bs: Seq<ContentBlock>) -> Option<ContentBlock>
    decreases bs.len(),
{
    if bs.len() == 0 {
        None
    } else if is_text_block(bs[0]) {
        Some(bs[0])
    } else {
        first_text_block(bs.drop_first())
    }
}

/// The text of an assistant message: that of its first text block.
pub open spec fn message_text(m: ChatMessage) -> Option<Seq<char>> {
    if m.role@ == "assistant"@ {
        match m.blocks {
            Some(bs) => match first_text_block(bs@) {
                Some(b) => opt_seq(b.text),
                None => None,
            },
            None => None,
        }
    } else {
        None
    }
}

/// The text of the latest assistant message that has one.
pub open spec fn last_text(ms: Seq<ChatMessage>) -> Option<Seq<char>>
    decreases ms.len(),
{
    if ms.len() == 0 {
        None
    } else {
        match message_text(ms.last()) {
            Some(t) => Some(t),
            None => last_text(ms.drop_last()),
        }
    }
}

pub open spec fn step_limit_message() -> Seq<char> {
    "최대 "@ + decimal(MAX_STEPS as nat) + "단계에 도달했습니다."@
}

fn first_text_of(bs: &Vec<ContentBlock>) -> (r: Option<String>)
    ensures
        opt_seq(r) == (match first_text_block(bs@) {
            Some(b) => opt_seq(b.text),
            None => None,
        }),
{
    let mut i: usize = 0;
    assert(bs@.subrange(0, bs.len() as int) =~= bs@);
    while i < bs.len()
        invariant
            0 <= i <= bs.len(),
            first_text_block(bs@) == first_text_block(bs@.subrange(i as int, bs.len() as int)),
        decreases bs.len() - i,
    {
        let ghost rest = bs@.subrange(i as int, bs.len() as int);
        assert(rest[0] == bs@[i as int]);
        if crate::model::str_eq(bs[i].block_type.as_str(), "text") {
            return match &bs[i].text {
                Some(t) => Some(t.clone()),
                None => None,
            };
        }
        assert(rest.drop_first() =~= bs@.subrange(i + 1, bs.len() as int));
        i += 1;
    }
    assert(bs@.subrange(i as int, bs.len() as int) =~= Seq::<ContentBlock>::empty());
    None
}

/// What a turn that ran out of steps shows: the latest assistant text, or a
/// note that the step limit was reached.
pub fn last_assistant_text(msgs: &[ChatMessage]) -> (r: String)
    ensures
        r@ == (match last_text(msgs@) {
            Some(t) => t,
            None => step_limit_message(),
        }),
{
    let mut i: usize = msgs.len();
    assert(msgs@.subrange(0, msgs.len() as int) =~= msgs@);
    while i > 0
        invariant
            0 <= i <= msgs.len(),
            last_text(msgs@) == last_text(msgs@.subrange(0, i as int)),
        decreases i,
    {
        let ghost pre = msgs@.subrange(0, i as int);
        assert(pre.last() == msgs@[i - 1]);
        assert(pre.drop_last() =~= msgs@.subrange(0, i - 1));
        let m = &msgs[i - 1];
        if crate::model::str_eq(m.role.as_str(), "assistant") {
            match &m.blocks {
                Some(bs) => {
                    match first_text_of(bs) {
                        Some(t) => {
                            return t;
                        },
                        None => {},
                    }
                },
                None => {},
            }
        }
        i -= 1;
    }
    let mut r = String::new();
    push_str(&mut r, "최대 ");
    push_decimal(&mut r, MAX_STEPS as u128);
    push_str(&mut r, "단계에 도달했습니다.");
    r
}

// ───────────────────────────── step budget ─────────────────────────────

/// Counts the model calls of a turn; it never grants more than `MAX_STEPS`.
pub struct LoopBudget {
    used: usize,
}

impl LoopBudget {
    #[verifier::type_invariant]
    spec fn within_limit(self) -> bool {
        self.used <= MAX_STEPS
    }

    /// The calls granted so far.
    pub closed spec fn used(&self) -> nat {
        self.used as nat
    }

    pub fn new() -> (b: Self)
        ensures
            b.used() == 0,
    {
        LoopBudget { used: 0 }
    }

    /// Grants one more model call, unless the limit is reached.
    pub fn try_step(&mut self) -> (ok: bool)
        ensures
            ok == (old(self).used() < MAX_STEPS),
            final(self).used() == (if ok {
                old(self).used() + 1
            } else {
                old(self).used()
            }),
            final(self).used() <= MAX_STEPS,
    {
        proof {
            use_type_invariant(&*self);
        }
        if self.used < MAX_STEPS {
            self.used = self.used + 1;
            true
        } else {
            false
        }
    }

    /// The calls granted so far; never more than `MAX_STEPS`.
    pub fn steps_taken(&self) -> (n: usize)
        ensures
            n == self.used(),
            n <= MAX_STEPS,
    {
        proof {
            use_type_invariant(self);
        }
        self.used
    }
}

// ───────────────────────────── content tools ─────────────────────────────

/// The tools that read a file's content.
#[derive(Debug, Clone, Copy, PartialEq, Eq, Structural)]
pub enum ContentTool {
    ReadContent,
    Summarize,
}

/// What a content tool answers before reading anything: refused without
/// consent, refused for a path the scope guard denies, otherwise allowed.
pub open spec fn content_gate_of(
    tool: ContentTool,
    consented: bool,
    verdict: Result<Seq<char>, Denial>,
    root: Seq<char>,
) -> Result<(), Seq<char>> {
    if !consented {
        match tool {
            ContentTool::ReadContent => Err(
                "파일 내용을 읽으려면 AI 콘텐츠 처리 동의가 필요합니다 (N1/G1). 설정에서 동의를 활성화하세요."@,
            ),
            ContentTool::Summarize => Err("AI 요약에는 콘텐츠 처리 동의가 필요합니다 (N1/G1)."@),
        }
    } else {
        match verdict {
            Err(d) => match tool {
                ContentTool::ReadContent => Err(
                    "read_content 범위 거부 (G2/G3): "@ + denial_name(d)
                        + " — 사용자 지정 범위("@ + root + ") 내 파일만 읽을 수 있습니다."@,
                ),
                ContentTool::Summarize => Err("summarize 범위 거부 (G2/G3): "@ + denial_name(d)),
            },
            Ok(_) => Ok(()),
        }
    }
}

pub open spec fn verdict_view(v: Result<String, Denial>) -> Result<Seq<char>, Denial> {
    match v {
        Ok(s) => Ok(s@),
        Err(d) => Err(d),
    }
}

/// The checks a content tool makes before it reads a file (see `content_gate_of`).
pub fn content_gate(tool: ContentTool, consented: bool, verdict: &Result<String, Denial>, root: &str) -> (r:
    Result<(), String>)
    ensures
        match (r, content_gate_of(tool, consented, verdict_view(*verdict), root@)) {
            (Ok(()), Ok(())) => true,
            (Err(m), Err(n)) => m@ == n,
            _ => false,
        },
{
    if !consented {
        return match tool {
            ContentTool::ReadContent => Err(
                "파일 내용을 읽으려면 AI 콘텐츠 처리 동의가 필요합니다 (N1/G1). 설정에서 동의를 활성화하세요.".to_string(),
            ),
            ContentTool::Summarize => Err("AI 요약에는 콘텐츠 처리 동의가 필요합니다 (N1/G1).".to_string()),
        };
    }
    match verdict {
        Err(d) => {
            let mut m = String::new();
            match tool {
                ContentTool::ReadContent => {
                    push_str(&mut m, "read_content 범위 거부 (G2/G3): ");
                    push_str(&mut m, d.name());
                    push_str(&mut m, " — 사용자 지정 범위(");
                    push_str(&mut m, root);
                    push_str(&mut m, ") 내 파일만 읽을 수 있습니다.");
                },
                ContentTool::Summarize => {
                    push_str(&mut m, "summarize 범위 거부 (G2/G3): ");
                    push_str(&mut m, d.name());
                },
            }
            Err(m)
        },
        Ok(_) => Ok(()),
    }
}

/// No content is read without consent, whatever the path.
pub proof fn lemma_no_consent_no_read(tool: ContentTool, verdict: Result<Seq<char>, Denial>, root: Seq<char>)
    ensures
        content_gate_of(tool, false, verdict, root) is Err,
{
}

} // verus!
