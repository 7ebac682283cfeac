//! The questions a new game server starts with.

use vstd::prelude::*;
use crate::store::{question_filled, question_ids, Store, Tables};
use crate::types::{NewQuestionData, Question};

verus! {

/// How many questions the starting bank holds.
pub const DEFAULT_BANK_SIZE: usize = 10;

/// The texts of one question.
pub struct BankEntry {
    pub text: Seq<char>,
    pub correct_answer: Seq<char>,
    pub wrong_answers: Seq<Seq<char>>,
    pub topic: Seq<char>,
    pub difficulty: Seq<char>,
}

/// The `k`-th question of the starting bank.
pub open spec fn default_entry(k: int) -> BankEntry {
    if k == 0 {
        BankEntry {
            text: "What is the capital of France?"@,
            correct_answer: "Paris"@,
            wrong_answers: seq!["London"@, "Berlin"@, "Madrid"@],
            topic: "Geography"@,
            difficulty: "Easy"@,
        }
    } else if k == 1 {
        BankEntry {
            text: "Which programming language was created by Graydon Hoare at Mozilla Research?"@,
            correct_answer: "Rust"@,
            wrong_answers: seq!["Go"@, "Swift"@, "Kotlin"@],
            topic: "Programming"@,
            difficulty: "Medium"@,
        }
    } else if k == 2 {
        BankEntry {
            text: "What is the speed of light in meters per second?"@,
            correct_answer: "299,792,458"@,
            wrong_answers: seq!["300,000,000"@, "299,999,999"@, "299,792,000"@],
            topic: "Science"@,
            difficulty: "Hard"@,
        }
    } else if k == 3 {
        BankEntry {
            text: "What year was SpacetimeDB first released?"@,
            correct_answer: "2023"@,
            wrong_answers: seq!["2022"@, "2021"@, "2020"@],
            topic: "Technology"@,
            difficulty: "Medium"@,
        }
    } else if k == 4 {
        BankEntry {
            text: "Which data structure provides O(1) average time complexity for insertions?"@,
            correct_answer: "Hash Table"@,
            wrong_answers: seq!["Binary Tree"@, "Linked List"@, "Heap"@],
            topic: "Computer Science"@,
            difficulty: "Medium"@,
        }
    } else if k == 5 {
        BankEntry {
            text: "What is the largest planet in our solar system?"@,
            correct_answer: "Jupiter"@,
            wrong_answers: seq!["Saturn"@, "Neptune"@, "Mars"@],
            topic: "Astronomy"@,
            difficulty: "Easy"@,
        }
    } else if k == 6 {
        BankEntry {
            text: "Which sorting algorithm has the best average-case time complexity?"@,
            correct_answer: "Quick Sort"@,
            wrong_answers: seq!["Bubble Sort"@, "Selection Sort"@, "Insertion Sort"@],
            topic: "Algorithms"@,
            difficulty: "Hard"@,
        }
    } else if k == 7 {
        BankEntry {
            text: "What is the primary purpose of WebAssembly?"@,
            correct_answer: "Run high-performance code in web browsers"@,
            wrong_answers: seq!["Style web pages"@, "Create web servers"@, "Send HTTP requests"@],
            topic: "Web Development"@,
            difficulty: "Medium"@,
        }
    } else if k == 8 {
        BankEntry {
            text: "Which company created the Rust programming language?"@,
            correct_answer: "Mozilla"@,
            wrong_answers: seq!["Google"@, "Microsoft"@, "Apple"@],
            topic: "Programming"@,
            difficulty: "Easy"@,
        }
    } else {
        BankEntry {
            text: "What is the time complexity of binary search?"@,
            correct_answer: "O(log n)"@,
            wrong_answers: seq!["O(n)"@, "O(n log n)"@, "O(1)"@],
            topic: "Algorithms"@,
            difficulty: "Medium"@,
        }
    }
}

/// The draft carries exactly the texts of the entry.
pub open spec fn draft_matches(d: NewQuestionData, e: BankEntry) -> bool {
    &&& d.text@ == e.text
    &&& d.correct_answer@ == e.correct_answer
    &&& d.wrong_answers@.len() == e.wrong_answers.len()
    &&& forall|j: int|
        0 <= j < e.wrong_answers.len() ==> (#[trigger] d.wrong_answers@[j])@ == e.wrong_answers[j]
    &&& d.topic@ == e.topic
    &&& d.difficulty@ == e.difficulty
}

fn draft(
    text: &str,
    correct_answer: &str,
    wrong_a: &str,
    wrong_b: &str,
    wrong_c: &str,
    topic: &str,
    difficulty: &str,
) -> (d: NewQuestionData)
    ensures
        draft_matches(
            d,
            BankEntry {
                text: text@,
                correct_answer: correct_answer@,
                wrong_answers: seq![wrong_a@, wrong_b@, wrong_c@],
                topic: topic@,
                difficulty: difficulty@,
            },
        ),
{
    let mut wrong_answers: Vec<String> = Vec::new();
    wrong_answers.push(String::from_str(wrong_a));
    wrong_answers.push(String::from_str(wrong_b));
    wrong_answers.push(String::from_str(wrong_c));
    NewQuestionData {
        text: String::from_str(text),
        correct_answer: String::from_str(correct_answer),
        wrong_answers,
        topic: String::from_str(topic),
        difficulty: String::from_str(difficulty),
    }
}

/// The `k`-th question of the starting bank, as a draft.
pub fn default_draft(k: usize) -> (d: NewQuestionData)
    requires
        k < DEFAULT_BANK_SIZE,
    ensures
        draft_matches(d, default_entry(k as int)),
        d.text@.len() > 0,
        d.correct_answer@.len() > 0,
{
    proof {
        reveal_strlit("What is the capital of France?");
        reveal_strlit("Paris");
        reveal_strlit("Which programming language was created by Graydon Hoare at Mozilla Research?");
        reveal_strlit("Rust");
        reveal_strlit("What is the speed of light in meters per second?");
        reveal_strlit("299,792,458");
        reveal_strlit("What year was SpacetimeDB first released?");
        reveal_strlit("2023");
        reveal_strlit("Which data structure provides O(1) average time complexity for insertions?");
        reveal_strlit("Hash Table");
        reveal_strlit("What is the largest planet in our solar system?");
        reveal_strlit("Jupiter");
        reveal_strlit("Which sorting algorithm has the best average-case time complexity?");
        reveal_strlit("Quick Sort");
        reveal_strlit("What is the primary purpose of WebAssembly?");
        reveal_strlit("Run high-performance code in web browsers");
        reveal_strlit("Which company created the Rust programming language?");
        reveal_strlit("Mozilla");
        reveal_strlit("What is the time complexity of binary search?");
        reveal_strlit("O(log n)");
    }
    if k == 0 {
        draft(
            "What is the capital of France?",
            "Paris",
            "London",
            "Berlin",
            "Madrid",
            "Geography",
            "Easy",
        )
    } else if k == 1 {
        draft(
            "Which programming language was created by Graydon Hoare at Mozilla Research?",
            "Rust",
            "Go",
            "Swift",
            "Kotlin",
            "Programming",
            "Medium",
        )
    } else if k == 2 {
        draft(
            "What is the speed of light in meters per second?",
            "299,792,458",
            "300,000,000",
            "299,999,999",
            "299,792,000",
            "Science",
            "Hard",
        )
    } else if k == 3 {
        draft(
            "What year was SpacetimeDB first released?",
            "2023",
            "2022",
            "2021",
            "2020",
            "Technology",
            "Medium",
        )
    } else if k == 4 {
        draft(
            "Which data structure provides O(1) average time complexity for insertions?",
            "Hash Table",
            "Binary Tree",
            "Linked List",
            "Heap",
            "Computer Science",
            "Medium",
        )
    } else if k == 5 {
        draft(
            "What is the largest planet in our solar system?",
            "Jupiter",
            "Saturn",
            "Neptune",
            "Mars",
            "Astronomy",
            "Easy",
        )
    } else if k == 6 {
        draft(
            "Which sorting algorithm has the best average-case time complexity?",
            "Quick Sort",
            "Bubble Sort",
            "Selection Sort",
            "Insertion Sort",
            "Algorithms",
            "Hard",
        )
    } else if k == 7 {
        draft(
            "What is the primary purpose of WebAssembly?",
            "Run high-performance code in web browsers",
            "Style web pages",
            "Create web servers",
            "Send HTTP requests",
            "Web Development",
            "Medium",
        )
    } else if k == 8 {
        draft(
            "Which company created the Rust programming language?",
            "Mozilla",
            "Google",
            "Microsoft",
            "Apple",
            "Programming",
            "Easy",
        )
    } else {
        draft(
            "What is the time complexity of binary search?",
            "O(log n)",
            "O(n)",
            "O(n log n)",
            "O(1)",
            "Algorithms",
            "Medium",
        )
    }
}

/// A question of the starting bank as stored: the texts of the entry under
/// the given id, no quality score yet and no agent behind it.
pub open spec fn is_default_question(q: Question, k: int, id: u64) -> bool {
    &&& q.question_id == id
    &&& draft_matches(
        NewQuestionData {
            text: q.text,
            correct_answer: q.correct_answer,
            wrong_answers: q.wrong_answers,
            topic: q.topic,
            difficulty: q.difficulty,
        },
        default_entry(k),
    )
    &&& q.quality_score == 0
    &&& q.origin_agent is None
}

/// Whether `init` fills the bank: only an empty bank is filled, and only when
/// ids are left for all of the starting questions.
pub open spec fn bootstraps(t: Tables) -> bool {
    t.question_bank.len() == 0 && t.next_question_id <= u64::MAX - DEFAULT_BANK_SIZE
}

/// Fills an empty question bank with the starting questions, in order and
/// with consecutive ids. A bank that holds anything is left alone. Returns
/// whether the bank was filled.
pub fn init(store: &mut Store) -> (filled: bool)
    ensures
        filled == bootstraps(old(store)@),
        filled ==> {
            &&& final(store)@.question_bank.len() == DEFAULT_BANK_SIZE
            &&& forall|k: int|
                0 <= k < DEFAULT_BANK_SIZE ==> is_default_question(
                    #[trigger] final(store)@.question_bank[k],
                    k,
                    (old(store)@.next_question_id + k) as u64,
                )
            &&& final(store)@ == (Tables {
                question_bank: final(store)@.question_bank,
                next_question_id: (old(store)@.next_question_id + DEFAULT_BANK_SIZE) as u64,
                ..old(store)@
            })
        },
        !filled ==> final(store)@ == old(store)@,
        old(store)@.wf() ==> final(store)@.wf(),
        final(store)@.follows(old(store)@),
{
    if store.question_bank.len() != 0 || store.next_question_id > u64::MAX - 10 {
        return false;
    }
    let ghost t = old(store)@;
    let mut k: usize = 0;
    while k < DEFAULT_BANK_SIZE
        invariant
            k <= DEFAULT_BANK_SIZE,
            t.next_question_id <= u64::MAX - DEFAULT_BANK_SIZE,
            store@.question_bank.len() == k,
            forall|j: int|
                0 <= j < k ==> is_default_question(
                    #[trigger] store@.question_bank[j],
                    j,
                    (t.next_question_id + j) as u64,
                ),
            forall|j: int| 0 <= j < k ==> question_filled(#[trigger] store@.question_bank[j]),
            store@ == (Tables {
                question_bank: store@.question_bank,
                next_question_id: (t.next_question_id + k) as u64,
                ..t
            }),
        decreases DEFAULT_BANK_SIZE - k,
    {
        let d = default_draft(k);
        let id = store.next_question_id;
        store.question_bank.push(
            Question {
                question_id: id,
                text: d.text,
                correct_answer: d.correct_answer,
                wrong_answers: d.wrong_answers,
                topic: d.topic,
                difficulty: d.difficulty,
                quality_score: 0,
                origin_agent: None,
            },
        );
        store.next_question_id = id + 1;
        k += 1;
    }
    proof {
        assert forall|i: int, j: int| 0 <= i < j < 10 implies question_ids(
            store@.question_bank,
        )[i] != question_ids(store@.question_bank)[j] by {
            assert(is_default_question(store@.question_bank[i], i, (t.next_question_id + i) as u64));
            assert(is_default_question(store@.question_bank[j], j, (t.next_question_id + j) as u64));
        }
        assert forall|i: int| 0 <= i < 10 implies question_ids(store@.question_bank)[i]
            < store@.next_question_id by {
            assert(is_default_question(store@.question_bank[i], i, (t.next_question_id + i) as u64));
        }
    }
    true
}

} // verus!
