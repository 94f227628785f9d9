use oj::wire::{CaseVerdict, JobState, ProblemType};
use oj::ApiError;

#[test]
fn job_states_have_their_wire_words() {
    assert_eq!(JobState::Queueing.as_str(), "Queueing");
    assert_eq!(JobState::Running.as_str(), "Running");
    assert_eq!(JobState::Finished.as_str(), "Finished");
}

#[test]
fn verdicts_have_their_wire_words() {
    assert_eq!(CaseVerdict::Waiting.as_str(), "Waiting");
    assert_eq!(CaseVerdict::Accepted.as_str(), "Accepted");
    assert_eq!(CaseVerdict::WrongAnswer.as_str(), "Wrong Answer");
    assert_eq!(CaseVerdict::TimeLimitExceeded.as_str(), "Time Limit Exceeded");
    assert_eq!(CaseVerdict::RuntimeError.as_str(), "Runtime Error");
    assert_eq!(CaseVerdict::CompilationError.as_str(), "Compilation Error");
    assert_eq!(CaseVerdict::CompilationSuccess.as_str(), "Compilation Success");
}

#[test]
fn wire_words_read_back() {
    for state in [JobState::Queueing, JobState::Running, JobState::Finished] {
        assert_eq!(JobState::from_str(state.as_str()), Some(state));
    }
    for verdict in [
        CaseVerdict::Waiting,
        CaseVerdict::Accepted,
        CaseVerdict::WrongAnswer,
        CaseVerdict::TimeLimitExceeded,
        CaseVerdict::RuntimeError,
        CaseVerdict::CompilationError,
        CaseVerdict::CompilationSuccess,
    ] {
        assert_eq!(CaseVerdict::from_str(verdict.as_str()), Some(verdict));
    }
    for ty in [
        ProblemType::Standard,
        ProblemType::Strict,
        ProblemType::Spj,
        ProblemType::DynamicRanking,
    ] {
        assert_eq!(ProblemType::from_str(ty.as_str()), Some(ty));
    }
    assert_eq!(JobState::from_str("queueing"), None);
    assert_eq!(CaseVerdict::from_str("AC"), None);
    assert_eq!(ProblemType::from_str("Standard"), None);
}

#[test]
fn error_codes_and_reasons() {
    assert_eq!(ApiError::InvalidArgument.code(), 1);
    assert_eq!(ApiError::InvalidState.code(), 2);
    assert_eq!(ApiError::NotFound.code(), 3);
    assert_eq!(ApiError::RateLimit.code(), 4);
    assert_eq!(ApiError::InvalidArgument.reason(), "ERR_INVALID_ARGUMENT");
    assert_eq!(ApiError::InvalidState.reason(), "ERR_INVALID_STATE");
    assert_eq!(ApiError::NotFound.reason(), "ERR_NOT_FOUND");
    assert_eq!(ApiError::RateLimit.reason(), "ERR_RATE_LIMIT");
}
