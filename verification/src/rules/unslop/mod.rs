pub mod no_mid_sentence_break;
