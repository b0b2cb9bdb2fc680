//! Tests for the CSL JSON library loader.

use supra::csljson::build_csl_lib;

#[test]
fn basic() {
        let csl_string = r#"[
                {
                    "id": "authorBookChapterTitle2021",
                    "author": [
                        {
                            "family": "Author",
                            "given": "Book"
                        }
                    ],
                    "container-title": "The Title of the Chapter Book",
                    "edition": "5th",
                    "editor": [
                        {
                            "family": "Editor",
                            "given": "Book"
                        }
                    ],
                    "issued": {
                        "date-parts": [
                            [
                                2021
                            ]
                        ]
                    },
                    "page": "101",
                    "title": "Book Chapter Title: The Chapter of a Book",
                    "title-short": "Book Chapter Title",
                    "type": "chapter",
                    "volume": "15"
                },
                {
                    "id": "authorBookTitleTitle2021",
                    "author": [
                        {
                            "family": "Author",
                            "given": "Book"
                        }
                    ],
                    "edition": "4th",
                    "issued": {
                        "date-parts": [
                            [
                                2021
                            ]
                        ]
                    },
                    "title": "Book Title: A Title for the Dummy Book",
                    "title-short": "Book Title",
                    "type": "book"
                },
                {
                    "id": "authorJournalArticleTitle2021",
                    "author": [
                        {
                            "family": "Author",
                            "given": "Article"
                        }
                    ],
                    "container-title": "Journal of Journal Articles",
                    "container-title-short": "J. J. Articles",
                    "issued": {
                        "date-parts": [
                            [
                                2021
                            ]
                        ]
                    },
                    "page": "1000",
                    "title": "Journal Article Title: A Journal Article",
                    "title-short": "Journal Article",
                    "type": "article-journal",
                    "volume": "99"
                },
                {
                    "id": "authorNotForthcomingManuscript2021",
                    "author": [
                        {
                            "family": "Author",
                            "given": "Manuscipt"
                        }
                    ],
                    "issued": {
                        "date-parts": [
                            [
                                2021
                            ]
                        ]
                    },
                    "title": "Not Yet Forthcoming Manuscript: This Manuscript Is Not Yet Placed",
                    "title-short": "Not Yet",
                    "type": "manuscript"
                },
                {
                    "id": "cauthorJournalArticleYear2021",
                    "author": [
                        {
                            "family": "Cauthor",
                            "given": "Article"
                        }
                    ],
                    "container-title": "The Other Journal of Journal Articles",
                    "issued": {
                        "date-parts": [
                            [
                                2021
                            ]
                        ]
                    },
                    "page": "501",
                    "title": "Journal Article With a Year Volume: This Journal Uses Years as Volumes",
                    "title-short": "Year Volume",
                    "type": "article-journal",
                    "volume": "2021"
                },
                {
                    "id": "dauthorTwoAuthorJournalArticle2021",
                    "author": [
                        {
                            "family": "Dauthor",
                            "given": "Article",
                            "suffix": "Jr."
                        },
                        {
                            "family": "Fauthor",
                            "given": "Article III"
                        }
                    ],
                    "container-title": "Journal of Journal Articles",
                    "issued": {
                        "date-parts": [
                            [
                                2021
                            ]
                        ]
                    },
                    "page": "101",
                    "title": "Two-Author Journal Article: This Article Has Two Authors",
                    "title-short": "Two-Author",
                    "type": "article-journal",
                    "volume": "51"
                },
                {
                    "id": "gauthorThreeAuthorJournalArticle2021",
                    "author": [
                        {
                            "family": "Gauthor",
                            "given": "Article",
                            "suffix": "Sr."
                        },
                        {
                            "family": "Hauthor",
                            "given": "Article",
                            "suffix": "Jr."
                        },
                        {
                            "family": "Jauthor",
                            "given": "Article III"
                        }
                    ],
                    "container-title": "Journal of Journal Articles",
                    "issued": {
                        "date-parts": [
                            [
                                2021
                            ]
                        ]
                    },
                    "page": "201",
                    "title": "Three-Author Journal Article: This Article Has Three Authors",
                    "title-short": "Three-Authors",
                    "type": "article-journal",
                    "volume": "50"
                },
                {
                    "id": "kauthorManuscriptTitleNot2021",
                    "author": [
                        {
                            "family": "Kauthor",
                            "given": "Manuscript"
                        }
                    ],
                    "container-title": "University of Manuscripts Law Review",
                    "issued": {
                        "date-parts": [
                            [
                                2021
                            ]
                        ]
                    },
                    "title": "Manuscript Title: Not Yet a Journal Article",
                    "title-short": "Manuscript Title",
                    "type": "manuscript",
                    "URL": "www.manuscripts.manuscript/manuscript",
                    "volume": "99"
                },
                {
                    "id": "lauthorBookTranslatorThis2021",
                    "author": [
                        {
                            "family": "Lauthor",
                            "given": "Book"
                        }
                    ],
                    "issued": {
                        "date-parts": [
                            [
                                2021
                            ]
                        ]
                    },
                    "title": "Book With a Translator: This Book Has a Translator",
                    "title-short": "Book With a Translator",
                    "translator": [
                        {
                            "family": "Translator",
                            "given": "Book"
                        }
                    ],
                    "type": "book"
                },
                {
                    "id": "mauthorBookEditorThis2021",
                    "author": [
                        {
                            "family": "Mauthor",
                            "given": "Book"
                        }
                    ],
                    "edition": "2d",
                    "editor": [
                        {
                            "family": "Editor",
                            "given": "Book"
                        }
                    ],
                    "issued": {
                        "date-parts": [
                            [
                                2021
                            ]
                        ]
                    },
                    "title": "Book With an Editor: This Book Has an Editor",
                    "title-short": "Book With an Editor",
                    "type": "book"
                },
                {
                    "id": "nauthorMultiVolumeBookThis2021",
                    "author": [
                        {
                            "family": "Nauthor",
                            "given": "Book"
                        }
                    ],
                    "issued": {
                        "date-parts": [
                            [
                                2021
                            ]
                        ]
                    },
                    "title": "Multi-Volume Book: This Book Is One of Several Volumes",
                    "title-short": "Multi-Volume Book",
                    "type": "book",
                    "volume": "10"
                }
            ]
            "#;
        let deser_csl_result = build_csl_lib(csl_string);
        assert!(deser_csl_result.is_ok());
    }

#[test]
fn non_json() {
        let csl_string = r#"This ain't no JSON library..."#;
        let deser_csl_result = build_csl_lib(csl_string);
        assert!(deser_csl_result
            .unwrap_err()
            .contains("error deserializing the CSL JSON"));
    }

#[test]
fn no_id() {
        let json_string = r#"[
                {
                    "author": [
                        {
                            "family": "Author",
                            "given": "Book"
                        }
                    ],
                    "issued": {
                        "date-parts": [
                            [
                                2021
                            ]
                        ]
                    },
                    "title": "Book Title: A Title for the Book",
                    "title-short": "Book Title",
                    "type": "book"
                }
            ]"#;

        let result = build_csl_lib(json_string);
        assert!(result.is_err());
        assert!(result.unwrap_err().contains("missing field `id`"));
    }

#[test]
fn book() {
        let json_string = r#"[
                {
                    "id": "authorBookTitleTitle2021",
                    "author": [
                        {
                            "family": "Author",
                            "given": "Book"
                        }
                    ],
                    "edition": "2d",
                    "editor": [
                        {
                            "family": "Editor",
                            "given": "Book"
                        }
                    ],
                    "issued": {
                        "date-parts": [
                            [
                                2021
                            ]
                        ]
                    },
                    "title": "Book Title: A Title for the Book",
                    "title-short": "Book Title",
                    "translator": [
                        {
                            "family": "Translator",
                            "given": "Book"
                        }
                    ],
                    "type": "book",
                    "volume": "15"
                }
            ]"#;

        let result = build_csl_lib(json_string);
        assert!(result.is_ok());
        assert_eq!(result.as_ref().unwrap()[0].id, "authorBookTitleTitle2021");
        assert_eq!(
            result.as_ref().unwrap()[0].author.as_ref().unwrap()[0]
                .family
                .as_ref()
                .unwrap(),
            "Author"
        );
        assert_eq!(
            result.as_ref().unwrap()[0].author.as_ref().unwrap()[0]
                .given
                .as_ref()
                .unwrap(),
            "Book"
        );
        assert_eq!(result.as_ref().unwrap()[0].edition.as_ref().unwrap(), "2d");
        assert_eq!(
            result.as_ref().unwrap()[0].editor.as_ref().unwrap()[0]
                .family
                .as_ref()
                .unwrap(),
            "Editor"
        );
        assert_eq!(
            result.as_ref().unwrap()[0].editor.as_ref().unwrap()[0]
                .given
                .as_ref()
                .unwrap(),
            "Book"
        );
        assert_eq!(
            result.as_ref().unwrap()[0]
                .issued
                .as_ref()
                .unwrap()
                .date_parts
                .as_ref()
                .unwrap()[0][0],
            2021
        );
        assert_eq!(
            result.as_ref().unwrap()[0].title.as_ref().unwrap(),
            "Book Title: A Title for the Book"
        );
        assert_eq!(
            result.as_ref().unwrap()[0].title_short.as_ref().unwrap(),
            "Book Title"
        );
        assert_eq!(
            result.as_ref().unwrap()[0].translator.as_ref().unwrap()[0]
                .family
                .as_ref()
                .unwrap(),
            "Translator"
        );
        assert_eq!(
            result.as_ref().unwrap()[0].translator.as_ref().unwrap()[0]
                .given
                .as_ref()
                .unwrap(),
            "Book"
        );
        assert_eq!(
            result.as_ref().unwrap()[0].source_type.as_ref().unwrap(),
            "book"
        );
        assert_eq!(result.as_ref().unwrap()[0].volume.as_ref().unwrap(), "15");
    }

#[test]
fn chapter() {
        let json_string = r#"[
                {
                    "id": "authorBookSectionTitle2021",
                    "author": [
                        {
                            "family": "Author",
                            "given": "Chapter"
                        }
                    ],
                    "container-title": "The Title of the Chaptered Book",
                    "edition": "5th",
                    "editor": [
                        {
                            "family": "Editor",
                            "given": "Book"
                        }
                    ],
                    "issued": {
                        "date-parts": [
                            [
                                2021
                            ]
                        ]
                    },
                    "page": "12",
                    "title": "Book Chapter Title: The Chapter of a Book",
                    "title-short": "Book Chapter Title",
                    "translator": [
                        {
                            "family": "Translator",
                            "given": "Book"
                        }
                    ],
                    "type": "chapter",
                    "volume": "99"
                }
            ]"#;

        let result = build_csl_lib(json_string);
        assert!(result.is_ok());
        assert_eq!(result.as_ref().unwrap()[0].id, "authorBookSectionTitle2021");
        assert_eq!(
            result.as_ref().unwrap()[0].author.as_ref().unwrap()[0]
                .family
                .as_ref()
                .unwrap(),
            "Author"
        );
        assert_eq!(
            result.as_ref().unwrap()[0].author.as_ref().unwrap()[0]
                .given
                .as_ref()
                .unwrap(),
            "Chapter"
        );
        assert_eq!(
            result.as_ref().unwrap()[0]
                .container_title
                .as_ref()
                .unwrap(),
            "The Title of the Chaptered Book"
        );
        assert_eq!(result.as_ref().unwrap()[0].edition.as_ref().unwrap(), "5th");
        assert_eq!(
            result.as_ref().unwrap()[0].editor.as_ref().unwrap()[0]
                .family
                .as_ref()
                .unwrap(),
            "Editor"
        );
        assert_eq!(
            result.as_ref().unwrap()[0].editor.as_ref().unwrap()[0]
                .given
                .as_ref()
                .unwrap(),
            "Book"
        );
        assert_eq!(
            result.as_ref().unwrap()[0]
                .issued
                .as_ref()
                .unwrap()
                .date_parts
                .as_ref()
                .unwrap()[0][0],
            2021
        );
        assert_eq!(result.as_ref().unwrap()[0].page.as_ref().unwrap(), "12");
        assert_eq!(
            result.as_ref().unwrap()[0].title.as_ref().unwrap(),
            "Book Chapter Title: The Chapter of a Book"
        );
        assert_eq!(
            result.as_ref().unwrap()[0].title_short.as_ref().unwrap(),
            "Book Chapter Title"
        );
        assert_eq!(
            result.as_ref().unwrap()[0].translator.as_ref().unwrap()[0]
                .family
                .as_ref()
                .unwrap(),
            "Translator"
        );
        assert_eq!(
            result.as_ref().unwrap()[0].translator.as_ref().unwrap()[0]
                .given
                .as_ref()
                .unwrap(),
            "Book"
        );
        assert_eq!(
            result.as_ref().unwrap()[0].source_type.as_ref().unwrap(),
            "chapter"
        );
        assert_eq!(result.as_ref().unwrap()[0].volume.as_ref().unwrap(), "99");
    }

#[test]
fn json_error() {}

#[test]
fn journal_article() {}

#[test]
fn manuscript() {}

#[test]
fn names() {}

#[test]
fn dates() {}

#[test]
fn multi_author() {}

#[test]
fn multi_editor() {}

#[test]
fn multi_translator() {}
