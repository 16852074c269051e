use guide::embed::{embedding_input, model_inputs, EmbedRole, MAX_SEQ_LEN};

#[test]
fn query_and_document_prefixes() {
    assert_eq!(embedding_input("dragons", EmbedRole::Query), "task: search result | query: dragons");
    assert_eq!(embedding_input("Chapter 1", EmbedRole::Document), "title: none | text: Chapter 1");
    assert_eq!(embedding_input("", EmbedRole::Document), "title: none | text: ");
}

#[test]
fn model_inputs_are_cut_to_sequence_length() {
    let ids: Vec<u32> = (0..600).collect();
    let mask: Vec<u32> = vec![1; 600];
    let (i, m) = model_inputs(&ids, &mask);
    assert_eq!(i.len(), MAX_SEQ_LEN);
    assert_eq!(m.len(), MAX_SEQ_LEN);
    assert_eq!(i[0], 0);
    assert_eq!(i[511], 511);
    assert!(m.iter().all(|&x| x == 1));
}

#[test]
fn short_inputs_are_kept_whole() {
    let (i, m) = model_inputs(&[101, 4000000000, 102], &[1, 1, 0]);
    assert_eq!(i, vec![101, 4000000000, 102]);
    assert_eq!(m, vec![1, 1, 0]);
}
