//! First-run seeding: a fresh index receives a small set of sample
//! documents, exactly once.

use vstd::prelude::*;

use crate::model::{Prompt, PromptIndex, PromptMetadata};

verus! {

/// What the sample set holds: three documents, ready for the create
/// flow, which fills in identifiers, file names and timestamps.
pub open spec fn seed_prompts_ok(v: Seq<Prompt>) -> bool {
    &&& v.len() == 3
    &&& forall|k: int|
        0 <= k < 3 ==> {
            let m = (#[trigger] v[k]).meta@;
            &&& m.id.len() == 0
            &&& m.filename.len() == 0
            &&& m.use_count == 0
            &&& m.last_used is None
            &&& m.created.len() == 0
            &&& m.updated.len() == 0
            &&& m.color is None
        }
    &&& v[0].meta@.name == "Summarize"@
    &&& v[0].meta@.folder == "Writing"@
    &&& v[0].meta@.description == "Summarize the content"@
    &&& v[0].meta@.icon == Some("file-text"@)
    &&& v[1].meta@.name == "Markov Chain State"@
    &&& v[1].meta@.folder == "AnalyzeCode"@
    &&& v[1].meta@.description == "Find all scary bugs"@
    &&& v[1].meta@.icon == Some("pencil"@)
    &&& v[2].meta@.name == "Critical Thinking"@
    &&& v[2].meta@.folder == "AnalyzeCode"@
    &&& v[2].meta@.description == "Generate alternatives and perspectives"@
    &&& v[2].meta@.icon == Some("lightbulb"@)
}

fn seed_meta(name: &str, folder: &str, description: &str, icon: &str) -> (r: PromptMetadata)
    ensures
        r@.id.len() == 0,
        r@.name == name@,
        r@.folder == folder@,
        r@.description == description@,
        r@.filename.len() == 0,
        r@.use_count == 0,
        r@.last_used is None,
        r@.created.len() == 0,
        r@.updated.len() == 0,
        r@.icon == Some(icon@),
        r@.color is None,
{
    PromptMetadata {
        id: String::new(),
        name: String::from_str(name),
        folder: String::from_str(folder),
        description: String::from_str(description),
        filename: String::new(),
        use_count: 0,
        last_used: None,
        created: String::new(),
        updated: String::new(),
        icon: Some(String::from_str(icon)),
        color: None,
    }
}

/// Decides first-run seeding.  An index already marked seeded is left
/// alone.  Otherwise the index is marked seeded and must be persisted; an
/// index that already holds documents receives no samples, while an empty
/// one is owed the sample documents, which the caller feeds through the
/// create flow before persisting.
pub fn seed_if_needed(index: &mut PromptIndex) -> (r: Option<Vec<Prompt>>)
    ensures
        old(index)@.seeded ==> r is None && final(index)@ == old(index)@,
        !old(index)@.seeded ==> {
            &&& r is Some
            &&& final(index)@.seeded == true
            &&& final(index)@.prompts == old(index)@.prompts
            &&& final(index)@.folders == old(index)@.folders
            &&& final(index)@.folder_meta == old(index)@.folder_meta
            &&& (old(index)@.prompts.len() > 0 ==> r->0@.len() == 0)
            &&& (old(index)@.prompts.len() == 0 ==> seed_prompts_ok(r->0@))
        },
{
    if index.seeded {
        return None;
    }
    index.seeded = true;
    if index.prompts.len() > 0 {
        return Some(Vec::new());
    }
    let mut v: Vec<Prompt> = Vec::new();
    v.push(
        Prompt {
            meta: seed_meta("Summarize", "Writing", "Summarize the content", "file-text"),
            content: String::from_str(SEED_SUMMARIZE),
        },
    );
    v.push(
        Prompt {
            meta: seed_meta("Markov Chain State", "AnalyzeCode", "Find all scary bugs", "pencil"),
            content: String::from_str(SEED_STATE_GRAPH),
        },
    );
    v.push(
        Prompt {
            meta: seed_meta(
                "Critical Thinking",
                "AnalyzeCode",
                "Generate alternatives and perspectives",
                "lightbulb",
            ),
            content: String::from_str(SEED_CRITICAL),
        },
    );
    assert(seed_prompts_ok(v@));
    Some(v)
}

const SEED_SUMMARIZE: &'static str = r#"
# **Task**

Transform the provided content into a structured summary. Extract and organize key information while maintaining the document's original terminology and structure.

# **Objectives**

- Preserve technical accuracy and relationships
- Maintain context without external interpretation

# **Instructions**

1. **Main Ideas (typically 3-8 points)**:
    - List the primary concepts or arguments
    - Include fewer points if the source is brief; omit section if no main ideas exist
    - Provide brief summaries

2. **Key Points (typically 3-8 points)**:
    - Identify important supporting details or secondary themes
    - Relate each point to a main idea
    - Use language similar to the original text

3. **Quotes (3-8 most relevant)**:
    - Select exact passages that:
      * Define key concepts or processes
      * Contain critical instructions or warnings
      * Represent unique insights not captured elsewhere
    - Include context indicators if quote references something specific

4. **Stated Facts (typically 3-8 points)**:
    - List explicit factual claims made in the text
    - Present the information as it appears
    - For process flows, maintain the sequence

5. **Document Metadata** (if present):
    - Document type/category
    - System names or tools mentioned
    - Key personnel roles (not names) referenced
    - Related processes or workflows

6. **Relationships** (if applicable):
    - Systems or processes that interact
    - Prerequisites or dependencies mentioned
    - Cause-and-effect relationships stated in the text

# **Instructions for Technical Content**

- Preserve technical terms, system names, and file paths exactly as written
- Include configuration details, error codes, and process steps in "Stated Facts"
- Maintain hierarchical relationships (e.g., numbered steps, sub-processes)
- Exclude code snippets but preserve:
  * File paths and system locations
  * Configuration values and parameters
  * Command names and error messages
  * API endpoints and service names

# **Handling Structured Content**

- Preserve numbered lists and hierarchical information in "Stated Facts"
- Maintain the relationship between parent and child items
- For process flows, maintain the sequence in your summary

# **Output Guidelines**

- **Include sections**: "Main Ideas," "Key Points," "Quotes," "Stated Facts," and optionally "Document Metadata" and "Relationships"
- Use numbered or bulleted lists for all sections
- Clearly label each section
- Use language and terminology consistent with the original text
- Note any unclear or contradictory text without attempting to resolve it
- Do not include information not explicitly stated in the text
- Maintain a neutral tone focused on reporting content
- Use neutral language that doesn't reveal personal information through context
- Omit any section if no relevant content exists for it

# **Final Check**

Before submitting your summary, ensure:

1. Neutral language is used throughout, avoiding inadvertent revelations of personal information
2. Only information from the original text is included—no external knowledge or context
3. Language and concepts are consistent with the provided content
4. The summary accurately reflects the text without additional interpretation
5. Irrelevant sections with no content are omitted
6. Technical terms and system references are preserved exactly as written (except PII)
7. Relationships and dependencies are clearly documented if present

# **Example Output**

**Main Ideas:**

1. **Idea 1**: Brief summary of the first main idea
2. **Idea 2**: Brief summary of the second main idea

**Key Points:**

1. **Key Point 1**: Supporting detail related to Idea 1
2. **Key Point 2**: Supporting detail related to Idea 2

**Quotes:**

1. "[Exact passage representing a central theme]" 
2. "[Another significant passage]"

**Stated Facts:**

1. **Fact 1**: Explicit factual claim as it appears in the text
2. **Fact 2**: Another factual claim (contact: [Email Address])
3. **Process Step**: Step-by-step process maintaining original sequence

**Document Metadata:**

- **Type**: Technical documentation / Process guide
- **Systems**: System A, System B, API Name
- **Key Contacts**: [Role 1], [Role 2]

**Relationships:**

1. System A sends requests to System B
2. Process X must complete before Process Y begins
3. [Department Head] approves all changes to Process Z

**Note**: This example demonstrates the expected format of the output. Sections should be omitted if no relevant content exists."#;

const SEED_STATE_GRAPH: &'static str = "Create a full Markov Chain state graph to find any possible flaws in this";

const SEED_CRITICAL: &'static str = r#"
# Critical Thinking

Think of 3 alternative ways this could have been solved:

    - [Alternative approach 1]
    - [Alternative approach 2]
    - [Alternative approach 3]

Come up with 3 different ideas or perspectives:

    - [Idea or perspective 1]
    - [Idea or perspective 2]
    - [Idea or perspective 3]"#;

} // verus!
